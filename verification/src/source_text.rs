use vstd::prelude::*;
use vstd::string::*;

use crate::text::push_char;

verus! {

/// Whether `c` has the Unicode `White_Space` property, which `char::is_whitespace` tests: tab to
/// carriage return, space, next line, no-break space, ogham space mark, the spaces from en quad
/// to hair space, line and paragraph separators, narrow no-break space, medium mathematical
/// space, and ideographic space.
pub open spec fn white_space(c: char) -> bool {
    let u = c as u32;
    ||| 0x09 <= u <= 0x0d
    ||| u == 0x20
    ||| u == 0x85
    ||| u == 0xa0
    ||| u == 0x1680
    ||| 0x2000 <= u <= 0x200a
    ||| u == 0x2028
    ||| u == 0x2029
    ||| u == 0x202f
    ||| u == 0x205f
    ||| u == 0x3000
}

/// Whether `char::is_alphanumeric` holds of `c` (the Unicode `Alphabetic` or `Numeric` property).
pub uninterp spec fn alphanumeric(c: char) -> bool;

/// Whether `c` is whitespace, as `char::is_whitespace` tells.
pub(crate) fn is_white(c: char) -> (r: bool)
    ensures
        r == white_space(c),
{
    let u = c as u32;
    (0x09 <= u && u <= 0x0d) || u == 0x20 || u == 0x85 || u == 0xa0 || u == 0x1680 || (0x2000 <= u && u <= 0x200a)
        || u == 0x2028 || u == 0x2029 || u == 0x202f || u == 0x205f || u == 0x3000
}

/// Calls `char::is_alphanumeric`; the answer is what `alphanumeric` names.
#[verifier::external_body]
pub(crate) fn is_alnum(c: char) -> (r: bool)
    ensures
        r == alphanumeric(c),
{
    c.is_alphanumeric()
}

/// `s` without its leading whitespace.
pub open spec fn trimmed_start(s: Seq<char>) -> Seq<char>
    decreases s.len(),
{
    if s.len() > 0 && white_space(s[0]) {
        trimmed_start(s.drop_first())
    } else {
        s
    }
}

/// `s` without its trailing whitespace.
pub open spec fn trimmed_end(s: Seq<char>) -> Seq<char>
    decreases s.len(),
{
    if s.len() > 0 && white_space(s.last()) {
        trimmed_end(s.drop_last())
    } else {
        s
    }
}

/// `s` without its leading and trailing whitespace (what `str::trim` gives).
pub open spec fn trimmed(s: Seq<char>) -> Seq<char> {
    trimmed_end(trimmed_start(s))
}

/// Whether `s` begins with `p`.
pub open spec fn has_prefix(s: Seq<char>, p: Seq<char>) -> bool {
    p.len() <= s.len() && s.subrange(0, p.len() as int) == p
}

/// Whether `s` ends with `p`.
pub open spec fn has_suffix(s: Seq<char>, p: Seq<char>) -> bool {
    p.len() <= s.len() && s.subrange(s.len() - p.len(), s.len() as int) == p
}

/// `s` without the prefix `p`, when it has it.
pub open spec fn without_prefix(s: Seq<char>, p: Seq<char>) -> Option<Seq<char>> {
    if has_prefix(s, p) {
        Some(s.subrange(p.len() as int, s.len() as int))
    } else {
        None
    }
}

/// `s` without the suffix `p`, when it has it.
pub open spec fn without_suffix(s: Seq<char>, p: Seq<char>) -> Option<Seq<char>> {
    if has_suffix(s, p) {
        Some(s.subrange(0, s.len() - p.len()))
    } else {
        None
    }
}

/// `s` with every leading copy of `p` removed (what `str::trim_start_matches` gives).
pub open spec fn strip_all_prefixes(s: Seq<char>, p: Seq<char>) -> Seq<char>
    decreases s.len(),
{
    if p.len() > 0 && has_prefix(s, p) {
        strip_all_prefixes(s.subrange(p.len() as int, s.len() as int), p)
    } else {
        s
    }
}

/// `s` with every trailing `c` removed (what `str::trim_end_matches` gives for a character).
pub open spec fn strip_all_suffix_chars(s: Seq<char>, c: char) -> Seq<char>
    decreases s.len(),
{
    if s.len() > 0 && s.last() == c {
        strip_all_suffix_chars(s.drop_last(), c)
    } else {
        s
    }
}

/// How many times `c` occurs in `s`.
pub open spec fn count_of(s: Seq<char>, c: char) -> nat
    decreases s.len(),
{
    if s.len() == 0 {
        0
    } else {
        count_of(s.drop_last(), c) + if s.last() == c {
            1nat
        } else {
            0nat
        }
    }
}

/// Whether `p` occurs in `s` at position `i`.
pub open spec fn occurs_at(s: Seq<char>, p: Seq<char>, i: int) -> bool {
    0 <= i && i + p.len() <= s.len() && s.subrange(i, i + p.len()) == p
}

/// Whether `i` is the first position at which `p` occurs in `s`.
pub open spec fn first_at(s: Seq<char>, p: Seq<char>, i: int) -> bool {
    occurs_at(s, p, i) && forall|j: int| 0 <= j < i ==> !occurs_at(s, p, j)
}

/// The first position at which `p` occurs in `s` (what `str::find` gives, counted in
/// characters).
pub open spec fn find_in(s: Seq<char>, p: Seq<char>) -> Option<int> {
    if exists|i: int| first_at(s, p, i) {
        Some(choose|i: int| first_at(s, p, i))
    } else {
        None
    }
}

/// `s` with each occurrence of `p`, found from the left and not overlapping, replaced by `w`
/// (what `str::replace` gives).
pub open spec fn replaced(s: Seq<char>, p: Seq<char>, w: Seq<char>) -> Seq<char>
    decreases s.len(),
{
    if p.len() == 0 || s.len() < p.len() {
        s
    } else if s.subrange(0, p.len() as int) == p {
        w + replaced(s.subrange(p.len() as int, s.len() as int), p, w)
    } else {
        seq![s[0]] + replaced(s.drop_first(), p, w)
    }
}

/// The length of the run of characters of `s` that are not whitespace, from its start.
pub open spec fn word_len(s: Seq<char>) -> nat
    decreases s.len(),
{
    if s.len() > 0 && !white_space(s[0]) {
        1 + word_len(s.drop_first())
    } else {
        0
    }
}

/// The first whitespace-separated word of `s`, if any (what `split_whitespace().next()`
/// gives).
pub open spec fn first_word(s: Seq<char>) -> Option<Seq<char>> {
    let t = trimmed_start(s);
    if t.len() == 0 {
        None
    } else {
        Some(t.subrange(0, word_len(t) as int))
    }
}

/// The part of `s` before the first `c`, or all of `s` (what `split(c).next()` gives).
pub open spec fn before_char(s: Seq<char>, c: char) -> Seq<char>
    decreases s.len(),
{
    if s.len() == 0 || s[0] == c {
        Seq::empty()
    } else {
        seq![s[0]] + before_char(s.drop_first(), c)
    }
}

/// The lines joined with `sep` between them.
pub open spec fn joined(lines: Seq<Seq<char>>, sep: Seq<char>) -> Seq<char>
    decreases lines.len(),
{
    if lines.len() == 0 {
        Seq::empty()
    } else if lines.len() == 1 {
        lines[0]
    } else {
        lines[0] + sep + joined(lines.drop_first(), sep)
    }
}

/// The characters of `s`, in order.
pub fn chars_of(s: &str) -> (r: Vec<char>)
    ensures
        r@ == s@,
{
    let n = s.unicode_len();
    let mut v: Vec<char> = Vec::new();
    let mut i: usize = 0;
    while i < n
        invariant
            n == s@.len(),
            0 <= i <= n,
            v@ == s@.subrange(0, i as int),
        decreases n - i,
    {
        v.push(s.get_char(i));
        i = i + 1;
    }
    assert(s@.subrange(0, n as int) =~= s@);
    v
}

/// A string of the characters of `cs`.
pub fn string_of(cs: &Vec<char>) -> (r: String)
    ensures
        r@ == cs@,
{
    let mut r = String::new();
    let n = cs.len();
    let mut i: usize = 0;
    while i < n
        invariant
            n == cs@.len(),
            0 <= i <= n,
            r@ == cs@.subrange(0, i as int),
        decreases n - i,
    {
        push_char(&mut r, cs[i]);
        assert(cs@.subrange(0, i + 1) =~= cs@.subrange(0, i as int).push(cs@[i as int]));
        i = i + 1;
    }
    assert(cs@.subrange(0, n as int) =~= cs@);
    r
}

/// The characters of `s` from `from` up to `to`.
pub fn slice(s: &Vec<char>, from: usize, to: usize) -> (r: Vec<char>)
    requires
        from <= to <= s@.len(),
    ensures
        r@ == s@.subrange(from as int, to as int),
{
    let mut v: Vec<char> = Vec::new();
    let mut i: usize = from;
    while i < to
        invariant
            from <= i <= to <= s@.len(),
            v@ == s@.subrange(from as int, i as int),
        decreases to - i,
    {
        v.push(s[i]);
        assert(s@.subrange(from as int, i + 1) =~= s@.subrange(from as int, i as int).push(s@[i as int]));
        i = i + 1;
    }
    v
}

/// The characters of `a` followed by those of `b`.
pub fn concat_chars(a: &Vec<char>, b: &Vec<char>) -> (r: Vec<char>)
    ensures
        r@ == a@ + b@,
{
    let mut v = slice(a, 0, a.len());
    let n = b.len();
    let mut i: usize = 0;
    assert(a@.subrange(0, a@.len() as int) =~= a@);
    while i < n
        invariant
            n == b@.len(),
            0 <= i <= n,
            v@ == a@ + b@.subrange(0, i as int),
        decreases n - i,
    {
        v.push(b[i]);
        assert(a@ + b@.subrange(0, i + 1) =~= (a@ + b@.subrange(0, i as int)).push(b@[i as int]));
        i = i + 1;
    }
    assert(b@.subrange(0, n as int) =~= b@);
    v
}

/// The position of the first non-whitespace character of `s` (or its length).
fn start_of_text(s: &Vec<char>) -> (r: usize)
    ensures
        r <= s@.len(),
        trimmed_start(s@) == s@.subrange(r as int, s@.len() as int),
{
    let n = s.len();
    let mut i: usize = 0;
    assert(s@.subrange(0, n as int) =~= s@);
    while i < n && is_white(s[i])
        invariant
            n == s@.len(),
            0 <= i <= n,
            trimmed_start(s@) == trimmed_start(s@.subrange(i as int, n as int)),
        decreases n - i,
    {
        assert(s@.subrange(i as int, n as int).drop_first() =~= s@.subrange(i + 1, n as int));
        i = i + 1;
    }
    i
}

/// The position just past the last non-whitespace character of `s[..to]` (or 0).
fn end_of_text(s: &Vec<char>, to: usize) -> (r: usize)
    requires
        to <= s@.len(),
    ensures
        r <= to,
        trimmed_end(s@.subrange(0, to as int)) == s@.subrange(0, r as int),
{
    let mut j: usize = to;
    while j > 0 && is_white(s[j - 1])
        invariant
            0 <= j <= to <= s@.len(),
            trimmed_end(s@.subrange(0, to as int)) == trimmed_end(s@.subrange(0, j as int)),
        decreases j,
    {
        assert(s@.subrange(0, j as int).drop_last() =~= s@.subrange(0, j - 1));
        j = j - 1;
    }
    j
}

/// `s` without its leading whitespace.
pub fn trim_start(s: &Vec<char>) -> (r: Vec<char>)
    ensures
        r@ == trimmed_start(s@),
        r@.len() <= s@.len(),
{
    let i = start_of_text(s);
    slice(s, i, s.len())
}

/// `s` without its leading and trailing whitespace.
pub fn trim(s: &Vec<char>) -> (r: Vec<char>)
    ensures
        r@ == trimmed(s@),
        r@.len() <= s@.len(),
{
    let t = trim_start(s);
    let j = end_of_text(&t, t.len());
    assert(t@.subrange(0, t@.len() as int) =~= t@);
    slice(&t, 0, j)
}

/// Whether `s` begins with the characters of `p`.
pub fn starts_with(s: &Vec<char>, p: &str) -> (r: bool)
    ensures
        r == has_prefix(s@, p@),
{
    let pc = chars_of(p);
    let m = pc.len();
    if m > s.len() {
        return false;
    }
    let mut i: usize = 0;
    while i < m
        invariant
            m == pc@.len() == p@.len(),
            pc@ == p@,
            m <= s@.len(),
            0 <= i <= m,
            s@.subrange(0, i as int) == pc@.subrange(0, i as int),
        decreases m - i,
    {
        if s[i] != pc[i] {
            assert(s@.subrange(0, m as int)[i as int] != p@[i as int]);
            return false;
        }
        assert(s@.subrange(0, i + 1) =~= s@.subrange(0, i as int).push(s@[i as int]));
        assert(pc@.subrange(0, i + 1) =~= pc@.subrange(0, i as int).push(pc@[i as int]));
        i = i + 1;
    }
    assert(pc@.subrange(0, m as int) =~= pc@);
    true
}

/// Whether `s` ends with the characters of `p`.
pub fn ends_with(s: &Vec<char>, p: &str) -> (r: bool)
    ensures
        r == has_suffix(s@, p@),
{
    let pc = chars_of(p);
    let m = pc.len();
    let n = s.len();
    if m > n {
        return false;
    }
    let tail = slice(s, n - m, n);
    let mut i: usize = 0;
    while i < m
        invariant
            m == pc@.len() == p@.len() == tail@.len(),
            pc@ == p@,
            m <= n,
            n == s@.len(),
            tail@ == s@.subrange(n - m, n as int),
            0 <= i <= m,
            tail@.subrange(0, i as int) == pc@.subrange(0, i as int),
        decreases m - i,
    {
        if tail[i] != pc[i] {
            assert(tail@[i as int] != p@[i as int]);
            return false;
        }
        assert(tail@.subrange(0, i + 1) =~= tail@.subrange(0, i as int).push(tail@[i as int]));
        assert(pc@.subrange(0, i + 1) =~= pc@.subrange(0, i as int).push(pc@[i as int]));
        i = i + 1;
    }
    assert(pc@.subrange(0, m as int) =~= pc@);
    assert(tail@.subrange(0, m as int) =~= tail@);
    true
}

/// `s` without the prefix `p`, when it has it.
pub fn strip_prefix(s: &Vec<char>, p: &str) -> (r: Option<Vec<char>>)
    ensures
        match without_prefix(s@, p@) {
            Some(t) => r is Some && r->Some_0@ == t,
            None => r is None,
        },
{
    if starts_with(s, p) {
        let m = p.unicode_len();
        Some(slice(s, m, s.len()))
    } else {
        None
    }
}

/// `s` without the suffix `p`, when it has it.
pub fn strip_suffix(s: &Vec<char>, p: &str) -> (r: Option<Vec<char>>)
    ensures
        match without_suffix(s@, p@) {
            Some(t) => r is Some && r->Some_0@ == t,
            None => r is None,
        },
{
    if ends_with(s, p) {
        let m = p.unicode_len();
        Some(slice(s, 0, s.len() - m))
    } else {
        None
    }
}

/// `s` with every leading copy of `p` removed.
pub fn trim_start_matches(s: &Vec<char>, p: &str) -> (r: Vec<char>)
    ensures
        r@ == strip_all_prefixes(s@, p@),
{
    let m = p.unicode_len();
    let mut t = slice(s, 0, s.len());
    assert(s@.subrange(0, s@.len() as int) =~= s@);
    if m == 0 {
        return t;
    }
    while starts_with(&t, p)
        invariant
            m == p@.len() > 0,
            strip_all_prefixes(s@, p@) == strip_all_prefixes(t@, p@),
        decreases t@.len(),
    {
        t = slice(&t, m, t.len());
    }
    t
}

/// `s` with every trailing `c` removed.
pub fn trim_end_matches(s: &Vec<char>, c: char) -> (r: Vec<char>)
    ensures
        r@ == strip_all_suffix_chars(s@, c),
{
    let mut j: usize = s.len();
    assert(s@.subrange(0, j as int) =~= s@);
    while j > 0 && s[j - 1] == c
        invariant
            0 <= j <= s@.len(),
            strip_all_suffix_chars(s@, c) == strip_all_suffix_chars(s@.subrange(0, j as int), c),
        decreases j,
    {
        assert(s@.subrange(0, j as int).drop_last() =~= s@.subrange(0, j - 1));
        j = j - 1;
    }
    slice(s, 0, j)
}

/// How many times `c` occurs in `s`.
pub fn count_char(s: &Vec<char>, c: char) -> (r: usize)
    ensures
        r == count_of(s@, c),
        r <= s@.len(),
{
    let n = s.len();
    let mut k: usize = 0;
    let mut i: usize = 0;
    while i < n
        invariant
            n == s@.len(),
            0 <= i <= n,
            k == count_of(s@.subrange(0, i as int), c),
            k <= i,
        decreases n - i,
    {
        assert(s@.subrange(0, i + 1).drop_last() =~= s@.subrange(0, i as int));
        if s[i] == c {
            k = k + 1;
        }
        i = i + 1;
    }
    assert(s@.subrange(0, n as int) =~= s@);
    k
}

/// Whether the characters of `p` occur in `s` at position `i`.
fn occurs_at_exec(s: &Vec<char>, p: &Vec<char>, i: usize) -> (r: bool)
    ensures
        r == occurs_at(s@, p@, i as int),
{
    let m = p.len();
    if i > s.len() || m > s.len() - i {
        return false;
    }
    let mut k: usize = 0;
    while k < m
        invariant
            m == p@.len(),
            i + m <= s.len(),
            0 <= k <= m,
            forall|x: int| 0 <= x < k ==> s@[i + x] == p@[x],
        decreases m - k,
    {
        if s[i + k] != p[k] {
            assert(s@.subrange(i as int, i + m)[k as int] != p@[k as int]);
            return false;
        }
        k = k + 1;
    }
    assert(s@.subrange(i as int, i + m) =~= p@);
    true
}

/// The first position at which the characters of `p` occur in `s`.
pub fn find(s: &Vec<char>, p: &str) -> (r: Option<usize>)
    ensures
        match find_in(s@, p@) {
            Some(i) => r == Some(i as usize),
            None => r is None,
        },
        match r {
            Some(i) => find_in(s@, p@) == Some(i as int) && first_at(s@, p@, i as int),
            None => find_in(s@, p@) is None,
        },
{
    let pc = chars_of(p);
    let n = s.len();
    let mut i: usize = 0;
    loop
        invariant
            pc@ == p@,
            n == s@.len(),
            0 <= i <= n,
            forall|j: int| 0 <= j < i ==> !occurs_at(s@, p@, j),
        ensures
            forall|j: int| 0 <= j <= n ==> !occurs_at(s@, p@, j),
        decreases n - i,
    {
        if occurs_at_exec(s, &pc, i) {
            assert(first_at(s@, p@, i as int));
            let ghost k = choose|k: int| first_at(s@, p@, k);
            assert(k == i as int) by {
                if k < i {
                } else if k > i {
                    assert(!occurs_at(s@, p@, i as int));
                }
            }
            return Some(i);
        }
        if i == n {
            break;
        }
        i = i + 1;
    }
    assert forall|k: int| !first_at(s@, p@, k) by {
        if 0 <= k <= n {
        } else {
            assert(!occurs_at(s@, p@, k));
        }
    }
    None
}

/// Whether the characters of `p` occur somewhere in `s`.
pub fn contains(s: &Vec<char>, p: &str) -> (r: bool)
    ensures
        r == (find_in(s@, p@) is Some),
{
    find(s, p).is_some()
}

/// `s` with each occurrence of `p`, found from the left, replaced by `w`.
pub fn replace(s: &Vec<char>, p: &str, w: &str) -> (r: Vec<char>)
    ensures
        r@ == replaced(s@, p@, w@),
{
    let pc = chars_of(p);
    let wc = chars_of(w);
    let m = pc.len();
    let n = s.len();
    let mut out: Vec<char> = Vec::new();
    let mut i: usize = 0;
    if m == 0 {
        return slice(s, 0, n);
    }
    assert(s@.subrange(0, n as int) =~= s@);
    while i < n
        invariant
            pc@ == p@,
            wc@ == w@,
            m == p@.len() > 0,
            n == s@.len(),
            0 <= i <= n,
            out@ + replaced(s@.subrange(i as int, n as int), p@, w@) == replaced(s@, p@, w@),
        decreases n - i,
    {
        let ghost rest = s@.subrange(i as int, n as int);
        if m <= n - i && occurs_at_exec(s, &pc, i) {
            assert(rest.subrange(0, m as int) =~= s@.subrange(i as int, i + m));
            assert(rest.subrange(m as int, rest.len() as int) =~= s@.subrange(i + m, n as int));
            let ghost before = out@;
            out = concat_chars(&out, &wc);
            assert(before + (w@ + replaced(s@.subrange(i + m, n as int), p@, w@)) =~= out@ + replaced(
                s@.subrange(i + m, n as int),
                p@,
                w@,
            ));
            i = i + m;
        } else {
            if m <= n - i {
                assert(rest.subrange(0, m as int) =~= s@.subrange(i as int, i + m));
                assert(rest.subrange(0, m as int) != p@);
            }
            assert(rest.drop_first() =~= s@.subrange(i + 1, n as int));
            let ghost before = out@;
            out.push(s[i]);
            assert(before + (seq![s@[i as int]] + replaced(s@.subrange(i + 1, n as int), p@, w@)) =~= out@
                + replaced(s@.subrange(i + 1, n as int), p@, w@));
            i = i + 1;
        }
    }
    assert(s@.subrange(n as int, n as int).len() == 0);
    assert(out@ + Seq::<char>::empty() =~= out@);
    out
}

/// The first whitespace-separated word of `s`, if any.
pub fn first_word_of(s: &Vec<char>) -> (r: Option<Vec<char>>)
    ensures
        match first_word(s@) {
            Some(w) => r is Some && r->Some_0@ == w,
            None => r is None,
        },
{
    let t = trim_start(s);
    let n = t.len();
    if n == 0 {
        return None;
    }
    let mut i: usize = 0;
    assert(t@.subrange(0, n as int) =~= t@);
    while i < n && !is_white(t[i])
        invariant
            n == t@.len(),
            0 <= i <= n,
            word_len(t@) == i + word_len(t@.subrange(i as int, n as int)),
        decreases n - i,
    {
        assert(t@.subrange(i as int, n as int).drop_first() =~= t@.subrange(i + 1, n as int));
        i = i + 1;
    }
    Some(slice(&t, 0, i))
}

/// The part of `s` before the first `c`, or all of `s`.
pub fn before(s: &Vec<char>, c: char) -> (r: Vec<char>)
    ensures
        r@ == before_char(s@, c),
{
    let n = s.len();
    let mut i: usize = 0;
    assert(s@.subrange(0, n as int) =~= s@);
    while i < n && s[i] != c
        invariant
            n == s@.len(),
            0 <= i <= n,
            before_char(s@, c) == s@.subrange(0, i as int) + before_char(s@.subrange(i as int, n as int), c),
        decreases n - i,
    {
        let ghost rest = s@.subrange(i as int, n as int);
        assert(rest.drop_first() =~= s@.subrange(i + 1, n as int));
        assert(s@.subrange(0, i + 1) =~= s@.subrange(0, i as int) + seq![s@[i as int]]);
        i = i + 1;
    }
    let r = slice(s, 0, i);
    assert(r@ + Seq::<char>::empty() =~= r@);
    r
}

/// The trimmed text is no longer than the text.
pub proof fn lemma_trimmed_len(s: Seq<char>)
    ensures
        trimmed_start(s).len() <= s.len(),
        trimmed_end(s).len() <= s.len(),
        trimmed(s).len() <= s.len(),
    decreases s.len(),
{
    lemma_trimmed_start_len(s);
    lemma_trimmed_end_len(s);
    lemma_trimmed_end_len(trimmed_start(s));
}

proof fn lemma_trimmed_start_len(s: Seq<char>)
    ensures
        trimmed_start(s).len() <= s.len(),
    decreases s.len(),
{
    if s.len() > 0 && white_space(s[0]) {
        lemma_trimmed_start_len(s.drop_first());
    }
}

proof fn lemma_trimmed_end_len(s: Seq<char>)
    ensures
        trimmed_end(s).len() <= s.len(),
    decreases s.len(),
{
    if s.len() > 0 && white_space(s.last()) {
        lemma_trimmed_end_len(s.drop_last());
    }
}

/// Removing trailing copies of a character does not lengthen a text.
pub proof fn lemma_strip_suffix_chars_len(s: Seq<char>, c: char)
    ensures
        strip_all_suffix_chars(s, c).len() <= s.len(),
    decreases s.len(),
{
    if s.len() > 0 && s.last() == c {
        lemma_strip_suffix_chars_len(s.drop_last(), c);
    }
}

/// The part of `s` after the last separator `sep`, found from the left (what
/// `split(sep).last()` gives).
pub open spec fn after_last(s: Seq<char>, sep: Seq<char>) -> Seq<char>
    decreases s.len(),
{
    if sep.len() == 0 {
        s
    } else {
        match find_in(s, sep) {
            Some(i) => if 0 <= i && i + sep.len() <= s.len() {
                after_last(s.subrange(i + sep.len(), s.len() as int), sep)
            } else {
                s
            },
            None => s,
        }
    }
}

/// Whether `c` is written in UTF-8 with one byte.
pub open spec fn is_ascii_char(c: char) -> bool {
    (c as u32) < 0x80
}

/// The characters of `t` between its first `k` and its last one, as `&t[k..t.len() - 1]`
/// slices them when the first `k` characters are single bytes; `None` where that slice panics:
/// when nothing is left between them, or the last character takes more than one byte.
pub open spec fn inner_part(t: Seq<char>, k: int) -> Option<Seq<char>> {
    if t.len() >= k + 1 && is_ascii_char(t.last()) {
        Some(t.subrange(k, t.len() - 1))
    } else {
        None
    }
}

/// The number of bytes that UTF-8 takes for `c`.
pub open spec fn utf8_width(c: char) -> nat {
    if (c as u32) < 0x80 {
        1
    } else if (c as u32) < 0x800 {
        2
    } else if (c as u32) < 0x10000 {
        3
    } else {
        4
    }
}

/// The number of bytes that UTF-8 takes for `s` (what `str::len` gives).
pub open spec fn utf8_len(s: Seq<char>) -> nat
    decreases s.len(),
{
    if s.len() == 0 {
        0
    } else {
        utf8_len(s.drop_last()) + utf8_width(s.last())
    }
}

/// The part of `s` after the last `sep`.
pub fn after_last_of(s: &Vec<char>, sep: &str) -> (r: Vec<char>)
    ensures
        r@ == after_last(s@, sep@),
    decreases s@.len(),
{
    let m = sep.unicode_len();
    if m == 0 {
        return slice(s, 0, s.len());
    }
    match find(s, sep) {
        Some(i) => {
            let n = s.len();
            assert(occurs_at(s@, sep@, i as int));
            assert(i + m <= n);
            let rest = slice(s, i + m, n);
            after_last_of(&rest, sep)
        },
        None => {
            assert(s@.subrange(0, s@.len() as int) =~= s@);
            slice(s, 0, s.len())
        },
    }
}

/// The characters of `t` between its first `k` and its last one, when slicing there succeeds.
pub fn inner_of(t: &Vec<char>, k: usize) -> (r: Option<Vec<char>>)
    ensures
        match inner_part(t@, k as int) {
            Some(x) => r is Some && r->Some_0@ == x,
            None => r is None,
        },
{
    let n = t.len();
    if n >= 1 && n - 1 >= k && (t[n - 1] as u32) < 0x80 {
        Some(slice(t, k, n - 1))
    } else {
        None
    }
}

/// The number of bytes that UTF-8 takes for the characters of `s`.
pub fn utf8_len_of(s: &Vec<char>) -> (r: u128)
    ensures
        r == utf8_len(s@),
{
    let n = s.len();
    let mut total: u128 = 0;
    let mut i: usize = 0;
    while i < n
        invariant
            n == s@.len(),
            0 <= i <= n,
            total == utf8_len(s@.subrange(0, i as int)),
            total <= 4 * i,
        decreases n - i,
    {
        let c = s[i] as u32;
        let w: u128 = if c < 0x80 {
            1
        } else if c < 0x800 {
            2
        } else if c < 0x10000 {
            3
        } else {
            4
        };
        assert(s@.subrange(0, i + 1).drop_last() =~= s@.subrange(0, i as int));
        total = total + w;
        i = i + 1;
    }
    assert(s@.subrange(0, n as int) =~= s@);
    total
}

/// `n` copies of `c`.
pub open spec fn repeated(c: char, n: nat) -> Seq<char> {
    Seq::new(n, |i: int| c)
}

/// A string of `n` copies of `c`.
pub fn repeat_char(c: char, n: u128) -> (r: String)
    ensures
        r@ == repeated(c, n as nat),
{
    let mut out = String::new();
    let mut k: u128 = 0;
    while k < n
        invariant
            0 <= k <= n,
            out@ == repeated(c, k as nat),
        decreases n - k,
    {
        push_char(&mut out, c);
        assert(out@ =~= repeated(c, (k + 1) as nat));
        k = k + 1;
    }
    out
}

/// The strings of `v` joined with `sep` between them.
pub fn join_strings(v: &Vec<String>, sep: &str) -> (r: String)
    ensures
        r@ == joined(v@.map_values(|x: String| x@), sep@),
{
    let ghost sv = v@.map_values(|x: String| x@);
    let n = v.len();
    if n == 0 {
        assert(sv.len() == 0);
        return String::new();
    }
    let mut out = v[n - 1].clone();
    let mut k: usize = n - 1;
    assert(sv.subrange(k as int, n as int) =~= seq![sv[k as int]]);
    while k > 0
        invariant
            sv == v@.map_values(|x: String| x@),
            n == v@.len(),
            0 <= k < n,
            out@ == joined(sv.subrange(k as int, n as int), sep@),
        decreases k,
    {
        let ghost part = sv.subrange(k - 1, n as int);
        assert(part.drop_first() =~= sv.subrange(k as int, n as int));
        assert(part[0] == v@[k - 1]@);
        out = v[k - 1].clone().concat(sep).concat(out.as_str());
        k = k - 1;
    }
    assert(sv.subrange(0, n as int) =~= sv);
    out
}

/// The number of characters of all the lines together.
pub open spec fn total_len(lines: Seq<Seq<char>>) -> int
    decreases lines.len(),
{
    if lines.len() == 0 {
        0
    } else {
        total_len(lines.drop_last()) + lines.last().len()
    }
}

/// The characters of the first `i` lines, then of one more.
pub proof fn lemma_total_len_step(lines: Seq<Seq<char>>, i: int)
    requires
        0 <= i < lines.len(),
    ensures
        total_len(lines.subrange(0, i + 1)) == total_len(lines.subrange(0, i)) + lines[i].len(),
        total_len(lines.subrange(0, i + 1)) <= total_len(lines),
        0 <= total_len(lines.subrange(0, i)),
{
    assert(lines.subrange(0, i + 1).drop_last() =~= lines.subrange(0, i));
    lemma_total_len_prefix(lines, i + 1);
    lemma_total_len_nonneg(lines.subrange(0, i));
}

proof fn lemma_total_len_nonneg(lines: Seq<Seq<char>>)
    ensures
        0 <= total_len(lines),
    decreases lines.len(),
{
    if lines.len() > 0 {
        lemma_total_len_nonneg(lines.drop_last());
    }
}

proof fn lemma_total_len_prefix(lines: Seq<Seq<char>>, i: int)
    requires
        0 <= i <= lines.len(),
    ensures
        total_len(lines.subrange(0, i)) <= total_len(lines),
    decreases lines.len() - i,
{
    if i == lines.len() {
        assert(lines.subrange(0, i) =~= lines);
    } else {
        lemma_total_len_prefix(lines, i + 1);
        assert(lines.subrange(0, i + 1).drop_last() =~= lines.subrange(0, i));
    }
}

} // verus!
