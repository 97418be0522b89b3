//! Character-level text operations on `Seq<char>`, with the executable
//! functions that compute them on strings.
use vstd::prelude::*;

verus! {

/// Whether `t` occurs in `s` as a contiguous piece.
pub open spec fn occurs_in(t: Seq<char>, s: Seq<char>) -> bool {
    exists|i: int| 0 <= i && i + t.len() <= s.len() && #[trigger] s.subrange(i, i + t.len()) == t
}

/// The middle of a concatenation occurs in it.
pub proof fn lemma_occurs_middle(a: Seq<char>, b: Seq<char>, c: Seq<char>)
    ensures
        occurs_in(b, a + b + c),
{
    assert((a + b + c).subrange(a.len() as int, (a.len() + b.len()) as int) =~= b);
}

/// What occurs in a piece of `u` occurs in `u`.
pub proof fn lemma_occurs_trans(t: Seq<char>, s: Seq<char>, u: Seq<char>)
    requires
        occurs_in(t, s),
        occurs_in(s, u),
    ensures
        occurs_in(t, u),
{
    let i = choose|i: int| 0 <= i && i + t.len() <= s.len() && #[trigger] s.subrange(i, i + t.len()) == t;
    let j = choose|j: int| 0 <= j && j + s.len() <= u.len() && #[trigger] u.subrange(j, j + s.len()) == s;
    assert(u.subrange(j + i, j + i + t.len()) =~= s.subrange(i, i + t.len()));
}

/// Index of the first occurrence of `c` in `s`, or `s.len()` when there is none.
pub open spec fn find_char(s: Seq<char>, c: char) -> nat
    decreases s.len(),
{
    if s.len() == 0 {
        0
    } else if s[0] == c {
        0
    } else {
        1 + find_char(s.drop_first(), c)
    }
}

/// The longest prefix of `s` that does not contain `c` (`take_while(|x| x != c)`).
pub open spec fn take_until(s: Seq<char>, c: char) -> Seq<char> {
    s.take(find_char(s, c) as int)
}

/// What is left of `s` once the prefix without `c` is dropped (`skip_while(|x| x != c)`).
pub open spec fn skip_until(s: Seq<char>, c: char) -> Seq<char> {
    s.skip(find_char(s, c) as int)
}

/// `s` without its first character, or `s` itself when it is empty (`skip(1)`).
pub open spec fn skip_first(s: Seq<char>) -> Seq<char> {
    if s.len() == 0 {
        s
    } else {
        s.drop_first()
    }
}

/// Number of leading characters of `s` equal to `c`.
pub open spec fn leading(s: Seq<char>, c: char) -> nat
    decreases s.len(),
{
    if s.len() > 0 && s[0] == c {
        1 + leading(s.drop_first(), c)
    } else {
        0
    }
}

/// `s` with its leading run of `c` removed (`skip_while(|x| x == c)`).
pub open spec fn skip_leading(s: Seq<char>, c: char) -> Seq<char> {
    s.skip(leading(s, c) as int)
}

/// Whether `s` begins with `p`.
pub open spec fn has_prefix(s: Seq<char>, p: Seq<char>) -> bool {
    p.len() <= s.len() && s.take(p.len() as int) == p
}

/// Whether `c` occurs in `s`.
pub open spec fn has_char(s: Seq<char>, c: char) -> bool {
    exists|i: int| 0 <= i < s.len() && s[i] == c
}

/// `find_char` is the position of the first `c`, or the length when `c` does not occur.
pub proof fn lemma_find_char_bounds(s: Seq<char>, c: char)
    ensures
        find_char(s, c) <= s.len(),
        forall|k: int| 0 <= k < find_char(s, c) ==> s[k] != c,
        find_char(s, c) < s.len() ==> s[find_char(s, c) as int] == c,
        find_char(s, c) < s.len() <==> has_char(s, c),
    decreases s.len(),
{
    if s.len() > 0 && s[0] != c {
        lemma_find_char_bounds(s.drop_first(), c);
        assert forall|k: int| 0 <= k < find_char(s, c) implies s[k] != c by {
            if k > 0 {
                assert(s[k] == s.drop_first()[k - 1]);
            }
        }
        if has_char(s, c) {
            let i = choose|i: int| 0 <= i < s.len() && s[i] == c;
            assert(s.drop_first()[i - 1] == c);
        }
        if has_char(s.drop_first(), c) {
            let i = choose|i: int| 0 <= i < s.drop_first().len() && s.drop_first()[i] == c;
            assert(s[i + 1] == c);
        }
    }
}

/// A position before which no `c` occurs, and that holds `c` or ends `s`, is `find_char`.
pub proof fn lemma_find_char_is(s: Seq<char>, c: char, i: int)
    requires
        0 <= i <= s.len(),
        forall|k: int| 0 <= k < i ==> s[k] != c,
        i < s.len() ==> s[i] == c,
    ensures
        find_char(s, c) == i,
    decreases s.len(),
{
    if s.len() > 0 && s[0] != c {
        assert forall|k: int| 0 <= k < i - 1 implies s.drop_first()[k] != c by {
            assert(s[k + 1] != c);
        }
        lemma_find_char_is(s.drop_first(), c, i - 1);
    }
}

/// A position before which every character is `c`, and that does not hold `c`, is `leading`.
pub proof fn lemma_leading_is(s: Seq<char>, c: char, i: int)
    requires
        0 <= i <= s.len(),
        forall|k: int| 0 <= k < i ==> s[k] == c,
        i < s.len() ==> s[i] != c,
    ensures
        leading(s, c) == i,
    decreases s.len(),
{
    if s.len() > 0 && s[0] == c {
        assert forall|k: int| 0 <= k < i - 1 implies s.drop_first()[k] == c by {
            assert(s[k + 1] == c);
        }
        lemma_leading_is(s.drop_first(), c, i - 1);
    }
}

/// Appends one character to a string, by `String::push`.
#[verifier::external_body]
pub(crate) fn push_char(s: &mut String, c: char)
    ensures
        final(s)@ == old(s)@.push(c),
{
    s.push(c);
}

/// The characters of a string slice, in order.
pub fn str_chars(s: &str) -> (v: Vec<char>)
    ensures
        v@ == s@,
{
    let mut v: Vec<char> = Vec::new();
    for c in it: s.chars()
        invariant
            v@ == it.seq().take(it.index() as int),
            it.seq() == s@,
    {
        v.push(c);
    }
    v
}

/// A string made of the characters `v[lo..hi]`.
pub fn string_of(v: &Vec<char>, lo: usize, hi: usize) -> (res: String)
    requires
        lo <= hi <= v.len(),
    ensures
        res@ == v@.subrange(lo as int, hi as int),
{
    let mut res = String::new();
    let mut i = lo;
    while i < hi
        invariant
            lo <= i <= hi <= v.len(),
            res@ == v@.subrange(lo as int, i as int),
        decreases hi - i,
    {
        push_char(&mut res, v[i]);
        i += 1;
        assert(res@ =~= v@.subrange(lo as int, i as int));
    }
    res
}

/// The first index at or after `start` that holds `c`, or `v.len()`.
pub fn find_char_from(v: &Vec<char>, start: usize, c: char) -> (i: usize)
    requires
        start <= v.len(),
    ensures
        i == start + find_char(v@.skip(start as int), c),
        start <= i <= v.len(),
{
    let mut i = start;
    while i < v.len() && v[i] != c
        invariant
            start <= i <= v.len(),
            forall|k: int| start <= k < i ==> v@[k] != c,
        decreases v.len() - i,
    {
        i += 1;
    }
    proof {
        let s = v@.skip(start as int);
        assert forall|k: int| 0 <= k < i - start implies s[k] != c by {
            assert(s[k] == v@[start + k]);
        }
        lemma_find_char_is(s, c, i - start);
    }
    i
}

/// The number of characters equal to `c` starting at `start`.
pub fn leading_from(v: &Vec<char>, start: usize, c: char) -> (n: usize)
    requires
        start <= v.len(),
    ensures
        n == leading(v@.skip(start as int), c),
        start + n <= v.len(),
{
    let mut i = start;
    while i < v.len() && v[i] == c
        invariant
            start <= i <= v.len(),
            forall|k: int| start <= k < i ==> v@[k] == c,
        decreases v.len() - i,
    {
        i += 1;
    }
    proof {
        let s = v@.skip(start as int);
        assert forall|k: int| 0 <= k < i - start implies s[k] == c by {
            assert(s[k] == v@[start + k]);
        }
        lemma_leading_is(s, c, i - start);
    }
    i - start
}

/// The values of a sequence of strings.
pub open spec fn strings_value(v: Seq<String>) -> Seq<Seq<char>> {
    v.map_values(|s: String| s@)
}

/// `line` without one trailing carriage return.
pub open spec fn strip_cr(line: Seq<char>) -> Seq<char> {
    if line.len() > 0 && line.last() == '\r' {
        line.drop_last()
    } else {
        line
    }
}

/// The lines of `s`, as `str::lines` gives them: split at each `\n`, with a
/// `\r` just before that `\n` removed, and no empty line after a final `\n`.
pub open spec fn lines_of(s: Seq<char>) -> Seq<Seq<char>>
    decreases s.len(),
{
    if s.len() == 0 {
        seq![]
    } else {
        let i = find_char(s, '\n');
        if i < s.len() {
            seq![strip_cr(s.take(i as int))] + lines_of(s.skip(i + 1 as int))
        } else {
            seq![s]
        }
    }
}

/// The pieces of `s` between occurrences of `c`, as `str::split` gives them.
pub open spec fn split_on(s: Seq<char>, c: char) -> Seq<Seq<char>>
    decreases s.len(),
{
    let i = find_char(s, c);
    if i < s.len() {
        seq![s.take(i as int)] + split_on(s.skip(i + 1 as int), c)
    } else {
        seq![s]
    }
}

/// Every non-overlapping occurrence of `pat` in `s`, from left to right,
/// replaced by `to` (`str::replace` with a non-empty pattern).
pub open spec fn replace_all(s: Seq<char>, pat: Seq<char>, to: Seq<char>) -> Seq<char>
    decreases s.len(),
{
    if s.len() == 0 || pat.len() == 0 {
        s
    } else if has_prefix(s, pat) {
        to + replace_all(s.skip(pat.len() as int), pat, to)
    } else {
        seq![s[0]] + replace_all(s.drop_first(), pat, to)
    }
}

/// White space as Unicode's `White_Space` property defines it (`char::is_whitespace`).
pub open spec fn is_space(c: char) -> bool {
    ||| '\u{9}' <= c <= '\u{d}'
    ||| c == ' '
    ||| c == '\u{85}'
    ||| c == '\u{a0}'
    ||| c == '\u{1680}'
    ||| '\u{2000}' <= c <= '\u{200a}'
    ||| c == '\u{2028}'
    ||| c == '\u{2029}'
    ||| c == '\u{202f}'
    ||| c == '\u{205f}'
    ||| c == '\u{3000}'
}

/// `s` without leading white space.
pub open spec fn trim_start(s: Seq<char>) -> Seq<char>
    decreases s.len(),
{
    if s.len() > 0 && is_space(s[0]) {
        trim_start(s.drop_first())
    } else {
        s
    }
}

/// `s` without trailing white space.
pub open spec fn trim_end(s: Seq<char>) -> Seq<char>
    decreases s.len(),
{
    if s.len() > 0 && is_space(s.last()) {
        trim_end(s.drop_last())
    } else {
        s
    }
}

/// `s` without leading and trailing white space (`str::trim`).
pub open spec fn trim(s: Seq<char>) -> Seq<char> {
    trim_end(trim_start(s))
}

/// Whether `c` is white space.
pub fn char_is_space(c: char) -> (b: bool)
    ensures
        b == is_space(c),
{
    ('\u{9}' <= c && c <= '\u{d}') || c == ' ' || c == '\u{85}' || c == '\u{a0}' || c
        == '\u{1680}' || ('\u{2000}' <= c && c <= '\u{200a}') || c == '\u{2028}' || c
        == '\u{2029}' || c == '\u{202f}' || c == '\u{205f}' || c == '\u{3000}'
}

/// Whether `v[start..]` begins with `p`.
pub fn has_prefix_at(v: &Vec<char>, start: usize, p: &Vec<char>) -> (b: bool)
    requires
        start <= v.len(),
    ensures
        b == has_prefix(v@.skip(start as int), p@),
{
    if p.len() > v.len() - start {
        return false;
    }
    let mut i: usize = 0;
    while i < p.len()
        invariant
            i <= p.len(),
            start + p.len() <= v.len(),
            forall|k: int| 0 <= k < i ==> v@[start + k] == p@[k],
        decreases p.len() - i,
    {
        if v[start + i] != p[i] {
            assert(v@.skip(start as int).take(p.len() as int)[i as int] != p@[i as int]);
            return false;
        }
        i += 1;
    }
    assert(v@.skip(start as int).take(p.len() as int) =~= p@);
    true
}

/// Whether `s` begins with `p`.
pub fn starts_with(s: &str, p: &str) -> (b: bool)
    ensures
        b == has_prefix(s@, p@),
{
    let v = str_chars(s);
    let pv = str_chars(p);
    assert(v@.skip(0) =~= v@);
    has_prefix_at(&v, 0, &pv)
}

/// `text` with every occurrence of the non-empty `pat` replaced by `to`.
pub fn replace(text: &str, pat: &str, to: &str) -> (res: String)
    requires
        pat@.len() > 0,
    ensures
        res@ == replace_all(text@, pat@, to@),
{
    let v = str_chars(text);
    let pv = str_chars(pat);
    let mut res = String::new();
    let mut i: usize = 0;
    assert(v@.skip(0) =~= v@);
    while i < v.len()
        invariant
            i <= v.len(),
            pv@ == pat@,
            pat@.len() > 0,
            res@ + replace_all(v@.skip(i as int), pat@, to@) == replace_all(text@, pat@, to@),
            v@ == text@,
        decreases v.len() - i,
    {
        let ghost rest = v@.skip(i as int);
        if has_prefix_at(&v, i, &pv) {
            let ghost before = res@;
            res.append(to);
            assert(before + replace_all(rest, pat@, to@) =~= res@ + replace_all(
                rest.skip(pat@.len() as int),
                pat@,
                to@,
            ));
            proof {
                assert(rest.skip(pat@.len() as int) =~= v@.skip(i + pat@.len()));
            }
            i += pv.len();
        } else {
            push_char(&mut res, v[i]);
            proof {
                assert(rest.drop_first() =~= v@.skip(i + 1));
                assert(rest[0] == v@[i as int]);
            }
            i += 1;
        }
    }
    assert(v@.skip(i as int) =~= Seq::<char>::empty());
    assert(res@ + Seq::<char>::empty() =~= res@);
    res
}

/// Dropping a run of leading white space that stops at a non-space is `trim_start`.
proof fn lemma_trim_start_is(s: Seq<char>, i: int)
    requires
        0 <= i <= s.len(),
        forall|k: int| 0 <= k < i ==> is_space(s[k]),
        i < s.len() ==> !is_space(s[i]),
    ensures
        trim_start(s) == s.skip(i),
    decreases s.len(),
{
    if s.len() > 0 && is_space(s[0]) {
        assert forall|k: int| 0 <= k < i - 1 implies is_space(s.drop_first()[k]) by {
            assert(s.drop_first()[k] == s[k + 1]);
        }
        lemma_trim_start_is(s.drop_first(), i - 1);
        assert(s.drop_first().skip(i - 1) =~= s.skip(i));
    } else {
        assert(s.skip(0) =~= s);
    }
}

/// Keeping the text before a run of trailing white space is `trim_end`.
proof fn lemma_trim_end_is(s: Seq<char>, j: int)
    requires
        0 <= j <= s.len(),
        forall|k: int| j <= k < s.len() ==> is_space(s[k]),
        j > 0 ==> !is_space(s[j - 1]),
    ensures
        trim_end(s) == s.take(j),
    decreases s.len(),
{
    if s.len() > 0 && is_space(s.last()) {
        assert forall|k: int| j <= k < s.len() - 1 implies is_space(s.drop_last()[k]) by {
            assert(s.drop_last()[k] == s[k]);
        }
        lemma_trim_end_is(s.drop_last(), j);
        assert(s.drop_last().take(j) =~= s.take(j));
    } else {
        assert(s.take(s.len() as int) =~= s);
    }
}

/// `text` without leading and trailing white space.
pub fn trim_str(text: &str) -> (res: String)
    ensures
        res@ == trim(text@),
{
    let v = str_chars(text);
    let mut i: usize = 0;
    while i < v.len() && char_is_space(v[i])
        invariant
            i <= v.len(),
            forall|k: int| 0 <= k < i ==> is_space(v@[k]),
        decreases v.len() - i,
    {
        i += 1;
    }
    let mut j: usize = v.len();
    while j > i && char_is_space(v[j - 1])
        invariant
            i <= j <= v.len(),
            forall|k: int| j <= k < v.len() ==> is_space(v@[k]),
        decreases j,
    {
        j -= 1;
    }
    proof {
        lemma_trim_start_is(v@, i as int);
        let t = v@.skip(i as int);
        assert forall|k: int| j - i <= k < t.len() implies is_space(t[k]) by {
            assert(t[k] == v@[i + k]);
        }
        if j > i {
            assert(t[j - i - 1] == v@[j - 1]);
        }
        lemma_trim_end_is(t, j - i);
        assert(t.take(j - i) =~= v@.subrange(i as int, j as int));
    }
    string_of(&v, i, j)
}

/// The lines of `text` (`str::lines`).
pub fn lines(text: &str) -> (res: Vec<String>)
    ensures
        strings_value(res@) == lines_of(text@),
{
    let v = str_chars(text);
    let mut res: Vec<String> = Vec::new();
    let mut p: usize = 0;
    assert(v@.skip(0) =~= v@);
    assert(strings_value(res@) =~= Seq::<Seq<char>>::empty());
    while p < v.len()
        invariant
            p <= v.len(),
            v@ == text@,
            strings_value(res@) + lines_of(v@.skip(p as int)) == lines_of(text@),
        decreases v.len() - p,
    {
        let ghost rest = v@.skip(p as int);
        let ghost before = res@;
        let nl = find_char_from(&v, p, '\n');
        if nl < v.len() {
            let end = if nl > p && v[nl - 1] == '\r' {
                nl - 1
            } else {
                nl
            };
            res.push(string_of(&v, p, end));
            proof {
                let i = find_char(rest, '\n');
                assert(rest.take(i as int) =~= v@.subrange(p as int, nl as int));
                assert(strip_cr(rest.take(i as int)) =~= v@.subrange(p as int, end as int));
                assert(rest.skip(i + 1 as int) =~= v@.skip(nl + 1));
                assert(strings_value(res@) =~= strings_value(before).push(
                    v@.subrange(p as int, end as int),
                ));
                assert(strings_value(before) + lines_of(rest) =~= strings_value(res@) + lines_of(
                    v@.skip(nl + 1),
                ));
            }
            p = nl + 1;
        } else {
            res.push(string_of(&v, p, v.len()));
            proof {
                assert(rest =~= v@.subrange(p as int, v.len() as int));
                assert(strings_value(res@) =~= strings_value(before).push(rest));
                assert(v@.skip(v.len() as int) =~= Seq::<char>::empty());
                assert(strings_value(before) + lines_of(rest) =~= strings_value(res@) + lines_of(
                    v@.skip(v.len() as int),
                ));
            }
            p = v.len();
        }
    }
    assert(v@.skip(p as int) =~= Seq::<char>::empty());
    assert(strings_value(res@) + Seq::<Seq<char>>::empty() =~= strings_value(res@));
    res
}

/// The pieces of `text` between occurrences of `c` (`str::split`).
pub fn split(text: &str, c: char) -> (res: Vec<String>)
    ensures
        strings_value(res@) == split_on(text@, c),
{
    let v = str_chars(text);
    let mut res: Vec<String> = Vec::new();
    let mut p: usize = 0;
    assert(v@.skip(0) =~= v@);
    assert(strings_value(res@) =~= Seq::<Seq<char>>::empty());
    let mut at = find_char_from(&v, 0, c);
    while at < v.len()
        invariant
            p <= at <= v.len(),
            at == p + find_char(v@.skip(p as int), c),
            v@ == text@,
            strings_value(res@) + split_on(v@.skip(p as int), c) == split_on(text@, c),
        decreases v.len() - p,
    {
        let ghost rest = v@.skip(p as int);
        let ghost before = res@;
        res.push(string_of(&v, p, at));
        proof {
            let i = find_char(rest, c);
            assert(rest.take(i as int) =~= v@.subrange(p as int, at as int));
            assert(rest.skip(i + 1 as int) =~= v@.skip(at + 1));
            assert(strings_value(res@) =~= strings_value(before).push(
                v@.subrange(p as int, at as int),
            ));
            assert(strings_value(before) + split_on(rest, c) =~= strings_value(res@) + split_on(
                v@.skip(at + 1),
                c,
            ));
        }
        p = at + 1;
        at = find_char_from(&v, p, c);
    }
    let ghost before = res@;
    res.push(string_of(&v, p, v.len()));
    proof {
        let rest = v@.skip(p as int);
        assert(rest =~= v@.subrange(p as int, v.len() as int));
        assert(strings_value(res@) =~= strings_value(before).push(rest));
        assert(strings_value(before) + split_on(rest, c) =~= strings_value(res@));
    }
    res
}

} // verus!
