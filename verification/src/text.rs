//! Character-level text helpers: prefixes, suffixes, line splitting and
//! whitespace trimming, each with the specification it meets.
use vstd::prelude::*;
use vstd::string::StringExecFns;

verus! {

/// `String::push` appends one character.
pub assume_specification[ String::push ](s: &mut String, ch: char)
    ensures
        final(s)@ == old(s)@.push(ch),
;

// ---------------------------------------------------------------------------
// Specifications
// ---------------------------------------------------------------------------
/// `p` is a prefix of `s`.
pub open spec fn is_prefix(p: Seq<char>, s: Seq<char>) -> bool {
    p.len() <= s.len() && s.take(p.len() as int) == p
}

/// `p` is a suffix of `s`.
pub open spec fn is_suffix(p: Seq<char>, s: Seq<char>) -> bool {
    p.len() <= s.len() && s.skip(s.len() - p.len()) == p
}

/// `sub` occurs in `s` starting at index `i`.
pub open spec fn occurs_at(s: Seq<char>, sub: Seq<char>, i: int) -> bool {
    0 <= i && i + sub.len() <= s.len() && s.subrange(i, i + sub.len()) == sub
}

/// `sub` occurs somewhere in `s`.
pub open spec fn contains_seq(s: Seq<char>, sub: Seq<char>) -> bool {
    exists|i: int| occurs_at(s, sub, i)
}

/// The first index, from `i` on, at which `sub` occurs in `s`.
pub open spec fn first_occurrence_from(s: Seq<char>, sub: Seq<char>, i: int) -> Option<int>
    decreases s.len() + 1 - i,
{
    if i < 0 || i + sub.len() > s.len() {
        None
    } else if occurs_at(s, sub, i) {
        Some(i)
    } else {
        first_occurrence_from(s, sub, i + 1)
    }
}

/// The first index at which `sub` occurs in `s` (`str::find`).
pub open spec fn first_occurrence(s: Seq<char>, sub: Seq<char>) -> Option<int> {
    first_occurrence_from(s, sub, 0)
}

/// An ASCII digit.
pub open spec fn is_ascii_digit(c: char) -> bool {
    48 <= (c as u32) <= 57
}

/// Every character of `d` is an ASCII digit.
pub open spec fn all_digits(d: Seq<char>) -> bool {
    forall|i: int| 0 <= i < d.len() ==> is_ascii_digit(#[trigger] d[i])
}

/// The value of a run of ASCII digits, read in base ten.
pub open spec fn digits_value(d: Seq<char>) -> int
    decreases d.len(),
{
    if d.len() == 0 {
        0
    } else {
        digits_value(d.drop_last()) * 10 + ((d.last() as u32) - 48)
    }
}

/// The digits of a numeral, after an optional leading `+`.
pub open spec fn numeral_digits(s: Seq<char>) -> Seq<char> {
    if s.len() > 0 && s[0] == '+' {
        s.drop_first()
    } else {
        s
    }
}

/// The `usize` that `str::parse` reads from `s`: an optional `+` and at
/// least one ASCII digit, of a value that fits in `usize`.
pub open spec fn parsed_usize(s: Seq<char>) -> Option<int> {
    let d = numeral_digits(s);
    if d.len() > 0 && all_digits(d) && digits_value(d) <= usize::MAX {
        Some(digits_value(d))
    } else {
        None
    }
}

/// `s` with every trailing repetition of `suf` removed (`str::trim_end_matches`).
pub open spec fn trim_end_all(s: Seq<char>, suf: Seq<char>) -> Seq<char>
    decreases s.len(),
{
    if suf.len() > 0 && is_suffix(suf, s) {
        trim_end_all(s.take(s.len() - suf.len()), suf)
    } else {
        s
    }
}

/// The characters with the Unicode `White_Space` property, which is what
/// `char::is_whitespace` and `str::trim` go by.
pub open spec fn is_white_space(c: char) -> bool {
    let v = c as u32;
    ||| 9 <= v <= 13
    ||| v == 32
    ||| v == 0x85
    ||| v == 0xa0
    ||| v == 0x1680
    ||| 0x2000 <= v <= 0x200a
    ||| v == 0x2028
    ||| v == 0x2029
    ||| v == 0x202f
    ||| v == 0x205f
    ||| v == 0x3000
}

/// `s` without leading whitespace.
pub open spec fn trim_start(s: Seq<char>) -> Seq<char>
    decreases s.len(),
{
    if s.len() > 0 && is_white_space(s[0]) {
        trim_start(s.drop_first())
    } else {
        s
    }
}

/// `s` without trailing whitespace.
pub open spec fn trim_end(s: Seq<char>) -> Seq<char>
    decreases s.len(),
{
    if s.len() > 0 && is_white_space(s.last()) {
        trim_end(s.drop_last())
    } else {
        s
    }
}

/// `s` without leading and trailing whitespace (`str::trim`).
pub open spec fn trim(s: Seq<char>) -> Seq<char> {
    trim_end(trim_start(s))
}

/// Index of the first `'\n'` in `s`, or `s.len()` when there is none.
pub open spec fn first_newline(s: Seq<char>) -> nat
    decreases s.len(),
{
    if s.len() == 0 {
        0
    } else if s[0] == '\n' {
        0
    } else {
        1 + first_newline(s.drop_first())
    }
}

/// A line without the `'\r'` of a `"\r\n"` ending.
pub open spec fn strip_cr(l: Seq<char>) -> Seq<char> {
    if l.len() > 0 && l.last() == '\r' {
        l.drop_last()
    } else {
        l
    }
}

/// The lines of `s` as `str::lines` yields them: split at `'\n'`, a final
/// line ending is optional, and a `'\r'` before a `'\n'` is not part of
/// the line (a bare `'\r'` ending the last line is).
pub open spec fn lines(s: Seq<char>) -> Seq<Seq<char>>
    decreases s.len(),
{
    if s.len() == 0 {
        seq![]
    } else {
        let k = first_newline(s);
        if k >= s.len() {
            seq![s]
        } else {
            seq![strip_cr(s.take(k as int))] + lines(s.skip(k + 1int))
        }
    }
}

// ---------------------------------------------------------------------------
// Lemmas
// ---------------------------------------------------------------------------
/// `first_newline` finds the first `'\n'`.
pub proof fn lemma_first_newline(s: Seq<char>, k: int)
    requires
        0 <= k <= s.len(),
        forall|j: int| 0 <= j < k ==> s[j] != '\n',
        k == s.len() || s[k] == '\n',
    ensures
        first_newline(s) == k,
    decreases k,
{
    if k > 0 {
        assert forall|j: int| 0 <= j < k - 1 implies s.drop_first()[j] != '\n' by {
            assert(s.drop_first()[j] == s[j + 1]);
        }
        if k < s.len() {
            assert(s.drop_first()[k - 1] == s[k]);
        }
        lemma_first_newline(s.drop_first(), k - 1);
    }
}

/// When `a` is empty or ends with a line break, the lines of `a + b` are
/// those of `a` followed by those of `b`.
pub proof fn lemma_lines_append(a: Seq<char>, b: Seq<char>)
    requires
        a.len() == 0 || a.last() == '\n',
    ensures
        lines(a + b) == lines(a) + lines(b),
    decreases a.len(),
{
    if a.len() == 0 {
        assert(a + b =~= b);
        assert(lines(a) =~= Seq::<Seq<char>>::empty());
        assert(lines(a) + lines(b) =~= lines(b));
    } else {
        let k = first_newline(a);
        lemma_first_newline_bounds(a);
        // a has a line break at its end, so its first one lies inside it.
        let ab = a + b;
        assert forall|j: int| 0 <= j < k implies ab[j] != '\n' by {
            lemma_first_newline_before(a, j);
        }
        if k >= a.len() {
            assert(a[a.len() - 1] == '\n');
            lemma_first_newline_before(a, a.len() - 1);
        }
        assert(k < a.len());
        lemma_first_newline_at(a);
        assert(ab[k as int] == '\n');
        lemma_first_newline(ab, k as int);
        assert(ab.take(k as int) =~= a.take(k as int));
        assert(ab.skip(k + 1int) =~= a.skip(k + 1int) + b);
        let rest = a.skip(k + 1int);
        if rest.len() > 0 {
            assert(rest.last() == a.last());
        }
        lemma_lines_append(rest, b);
        assert(lines(ab) =~= seq![strip_cr(a.take(k as int))] + (lines(rest) + lines(b)));
        assert(lines(a) =~= seq![strip_cr(a.take(k as int))] + lines(rest));
        assert(lines(ab) =~= lines(a) + lines(b));
    }
}

/// `first_newline` is at most the length.
pub proof fn lemma_first_newline_bounds(s: Seq<char>)
    ensures
        first_newline(s) <= s.len(),
    decreases s.len(),
{
    if s.len() > 0 && s[0] != '\n' {
        lemma_first_newline_bounds(s.drop_first());
    }
}

/// No `'\n'` comes before `first_newline`.
pub proof fn lemma_first_newline_before(s: Seq<char>, j: int)
    requires
        0 <= j < first_newline(s),
    ensures
        s[j] != '\n',
    decreases s.len(),
{
    lemma_first_newline_bounds(s);
    assert(s.len() > 0 && s[0] != '\n');
    if j > 0 {
        lemma_first_newline_before(s.drop_first(), j - 1);
        assert(s.drop_first()[j - 1] == s[j]);
    }
}

/// `first_newline`, when inside `s`, points at a `'\n'`.
pub proof fn lemma_first_newline_at(s: Seq<char>)
    requires
        first_newline(s) < s.len(),
    ensures
        s[first_newline(s) as int] == '\n',
    decreases s.len(),
{
    if s[0] != '\n' {
        lemma_first_newline_at(s.drop_first());
    }
}

/// Text without a line break is a single line (or none when empty).
pub proof fn lemma_lines_single(s: Seq<char>)
    requires
        forall|j: int| 0 <= j < s.len() ==> s[j] != '\n',
    ensures
        s.len() == 0 ==> lines(s) == Seq::<Seq<char>>::empty(),
        s.len() > 0 ==> lines(s) == seq![s],
{
    if s.len() > 0 {
        lemma_first_newline(s, s.len() as int);
    }
}

/// Removing a suffix that is there and then trimming gives the trimmed
/// text; a text that does not end in `suf` is left alone.
pub proof fn lemma_trim_end_all_once(s: Seq<char>, suf: Seq<char>)
    requires
        suf.len() > 0,
        !is_suffix(suf, s),
    ensures
        trim_end_all(s + suf, suf) == s,
{
    let t = s + suf;
    assert(t.skip(t.len() - suf.len()) =~= suf);
    assert(t.take(t.len() - suf.len()) =~= s);
    assert(trim_end_all(s, suf) == s);
}

/// A trailing whitespace character is removed by `trim` when the rest
/// already trims to itself.
pub proof fn lemma_trim_drops_trailing(s: Seq<char>, c: char)
    requires
        s.len() > 0,
        !is_white_space(s[0]),
        !is_white_space(s.last()),
        is_white_space(c),
    ensures
        trim(s.push(c)) == s,
{
    let t = s.push(c);
    assert(trim_start(t) == t);
    assert(t.drop_last() =~= s);
    assert(trim_end(t) == trim_end(s));
}

// ---------------------------------------------------------------------------
// Executable helpers
// ---------------------------------------------------------------------------
/// The characters of `s`, in order.
pub fn chars_of(s: &str) -> (res: Vec<char>)
    ensures
        res@ == s@,
{
    let mut out: Vec<char> = Vec::new();
    for c in it: s.chars()
        invariant
            out@ == it.seq().take(it.index() as int),
    {
        out.push(c);
    }
    out
}

/// A `String` holding the characters of `v`.
pub fn string_of(v: &Vec<char>) -> (res: String)
    ensures
        res@ == v@,
{
    let mut out = String::new();
    for i in 0..v.len()
        invariant
            out@ == v@.take(i as int),
    {
        out.push(v[i]);
        assert(v@.take(i + 1) == v@.take(i as int).push(v@[i as int]));
    }
    assert(v@.take(v.len() as int) == v@);
    out
}

/// `a` followed by `b`.
pub fn concat(a: &str, b: &str) -> (res: String)
    ensures
        res@ == a@ + b@,
{
    let mut out = String::from_str(a);
    out.append(b);
    out
}

/// The characters of `s` from `a` up to (not including) `b`.
pub fn slice_chars(s: &Vec<char>, a: usize, b: usize) -> (res: Vec<char>)
    requires
        a <= b <= s.len(),
    ensures
        res@ == s@.subrange(a as int, b as int),
{
    let mut out: Vec<char> = Vec::new();
    let mut i = a;
    while i < b
        invariant
            a <= i <= b <= s.len(),
            out@ == s@.subrange(a as int, i as int),
        decreases b - i,
    {
        out.push(s[i]);
        assert(s@.subrange(a as int, i + 1) == s@.subrange(a as int, i as int).push(s@[i as int]));
        i = i + 1;
    }
    out
}

/// Whether `p` is a prefix of `s`.
pub fn has_prefix(s: &Vec<char>, p: &Vec<char>) -> (res: bool)
    ensures
        res == is_prefix(p@, s@),
{
    if p.len() > s.len() {
        return false;
    }
    let mut i: usize = 0;
    while i < p.len()
        invariant
            p.len() <= s.len(),
            i <= p.len(),
            forall|j: int| 0 <= j < i ==> s@[j] == p@[j],
        decreases p.len() - i,
    {
        if s[i] != p[i] {
            assert(s@.take(p.len() as int)[i as int] != p@[i as int]);
            return false;
        }
        i = i + 1;
    }
    assert(s@.take(p.len() as int) =~= p@);
    true
}

/// Whether `p` is a suffix of `s`.
pub fn has_suffix(s: &Vec<char>, p: &Vec<char>) -> (res: bool)
    ensures
        res == is_suffix(p@, s@),
{
    if p.len() > s.len() {
        return false;
    }
    let off = s.len() - p.len();
    let mut i: usize = 0;
    while i < p.len()
        invariant
            p.len() <= s.len(),
            off == s.len() - p.len(),
            i <= p.len(),
            forall|j: int| 0 <= j < i ==> s@[off + j] == p@[j],
        decreases p.len() - i,
    {
        if s[off + i] != p[i] {
            assert(s@.skip(off as int)[i as int] != p@[i as int]);
            return false;
        }
        i = i + 1;
    }
    assert(s@.skip(off as int) =~= p@);
    true
}

/// The first index at which `sub` occurs in `s`.
pub fn find_first(s: &Vec<char>, sub: &Vec<char>) -> (res: Option<usize>)
    ensures
        match res {
            Some(i) => first_occurrence(s@, sub@) == Some(i as int) && occurs_at(s@, sub@, i as int),
            None => first_occurrence(s@, sub@) is None,
        },
{
    if sub.len() > s.len() {
        return None;
    }
    let last = s.len() - sub.len();
    let mut i: usize = 0;
    loop
        invariant
            sub.len() <= s.len(),
            last == s.len() - sub.len(),
            i <= last,
            first_occurrence(s@, sub@) == first_occurrence_from(s@, sub@, i as int),
        ensures
            first_occurrence(s@, sub@) is None,
        decreases last - i,
    {
        let mut j: usize = 0;
        let mut same = true;
        while j < sub.len()
            invariant
                sub.len() <= s.len(),
                last == s.len() - sub.len(),
                i <= last,
                j <= sub.len(),
                same ==> forall|m: int| 0 <= m < j ==> s@[i + m] == sub@[m],
                !same ==> !occurs_at(s@, sub@, i as int),
            decreases sub.len() - j,
        {
            if s[i + j] != sub[j] {
                assert(s@.subrange(i as int, i + sub.len())[j as int] != sub@[j as int]);
                same = false;
            }
            j = j + 1;
        }
        if same {
            assert(s@.subrange(i as int, i + sub.len()) =~= sub@);
            return Some(i);
        }
        if i == last {
            assert(first_occurrence_from(s@, sub@, i + 1) is None);
            break;
        }
        i = i + 1;
    }
    None
}

/// The `usize` that `str::parse` reads from `s`, if any.
pub fn parse_usize(s: &Vec<char>) -> (res: Option<usize>)
    ensures
        match res {
            Some(v) => parsed_usize(s@) == Some(v as int),
            None => parsed_usize(s@) is None,
        },
{
    let start: usize = if s.len() > 0 && s[0] == '+' {
        1
    } else {
        0
    };
    let ghost d = numeral_digits(s@);
    assert(d =~= s@.skip(start as int));
    if start == s.len() {
        return None;
    }
    let mut acc: Option<usize> = Some(0);
    let mut i: usize = start;
    assert(d.take(0) =~= Seq::<char>::empty());
    while i < s.len()
        invariant
            start <= i <= s.len(),
            d == numeral_digits(s@),
            d == s@.skip(start as int),
            d.len() == s.len() - start,
            forall|k: int| 0 <= k < i - start ==> is_ascii_digit(#[trigger] d[k]),
            digits_value(d.take(i - start)) >= 0,
            match acc {
                Some(a) => a == digits_value(d.take(i - start)),
                None => digits_value(d.take(i - start)) > usize::MAX,
            },
        decreases s.len() - i,
    {
        let code = s[i] as u32;
        assert(d[i - start] == s@[i as int]);
        if code < 48 || code > 57 {
            assert(!is_ascii_digit(d[i - start]));
            assert(!all_digits(d));
            return None;
        }
        let digit = (code - 48) as usize;
        let ghost t = d.take(i - start + 1);
        proof {
            assert(t.drop_last() =~= d.take(i - start));
            assert(t.last() == s@[i as int]);
            assert(digits_value(t) == digits_value(d.take(i - start)) * 10 + digit);
        }
        acc = match acc {
            Some(a) => match a.checked_mul(10) {
                Some(m) => m.checked_add(digit),
                None => None,
            },
            None => None,
        };
        i = i + 1;
    }
    assert(d.take(d.len() as int) =~= d);
    acc
}

/// Whether `sub` occurs in `s`.
pub fn has_infix(s: &Vec<char>, sub: &Vec<char>) -> (res: bool)
    ensures
        res == contains_seq(s@, sub@),
{
    if sub.len() > s.len() {
        assert forall|i: int| !occurs_at(s@, sub@, i) by {}
        return false;
    }
    let last = s.len() - sub.len();
    let mut i: usize = 0;
    loop
        invariant
            sub.len() <= s.len(),
            last == s.len() - sub.len(),
            i <= last,
            forall|k: int| 0 <= k < i ==> !occurs_at(s@, sub@, k),
        ensures
            forall|k: int| 0 <= k <= last ==> !occurs_at(s@, sub@, k),
        decreases last - i,
    {
        let mut j: usize = 0;
        let mut same = true;
        while j < sub.len()
            invariant
                sub.len() <= s.len(),
                last == s.len() - sub.len(),
                i <= last,
                j <= sub.len(),
                same ==> forall|m: int| 0 <= m < j ==> s@[i + m] == sub@[m],
                !same ==> !occurs_at(s@, sub@, i as int),
            decreases sub.len() - j,
        {
            if s[i + j] != sub[j] {
                assert(s@.subrange(i as int, i + sub.len())[j as int] != sub@[j as int]);
                same = false;
            }
            j = j + 1;
        }
        if same {
            assert(s@.subrange(i as int, i + sub.len()) =~= sub@);
            assert(occurs_at(s@, sub@, i as int));
            return true;
        }
        if i == last {
            break;
        }
        i = i + 1;
    }
    assert forall|k: int| !occurs_at(s@, sub@, k) by {
        if 0 <= k && k + sub.len() <= s.len() {
            assert(k <= last);
        }
    }
    false
}

/// `s` with every trailing repetition of `suf` removed.
pub fn trim_end_matches(s: &Vec<char>, suf: &Vec<char>) -> (res: Vec<char>)
    requires
        suf.len() > 0,
    ensures
        res@ == trim_end_all(s@, suf@),
{
    let mut cur = slice_chars(s, 0, s.len());
    assert(s@.subrange(0, s.len() as int) =~= s@);
    loop
        invariant
            suf.len() > 0,
            trim_end_all(cur@, suf@) == trim_end_all(s@, suf@),
        decreases cur.len(),
    {
        if has_suffix(&cur, suf) {
            let n = cur.len() - suf.len();
            let next = slice_chars(&cur, 0, n);
            assert(next@ =~= cur@.take(n as int));
            cur = next;
        } else {
            return cur;
        }
    }
}

/// Whether `c` has the Unicode `White_Space` property.
pub fn white_space(c: char) -> (res: bool)
    ensures
        res == is_white_space(c),
{
    let v = c as u32;
    (9 <= v && v <= 13) || v == 32 || v == 0x85 || v == 0xa0 || v == 0x1680 || (0x2000 <= v
        && v <= 0x200a) || v == 0x2028 || v == 0x2029 || v == 0x202f || v == 0x205f || v
        == 0x3000
}

/// `s` without leading and trailing whitespace.
pub fn trim_chars(s: &Vec<char>) -> (res: Vec<char>)
    ensures
        res@ == trim(s@),
{
    let n = s.len();
    let mut a: usize = 0;
    assert(s@.skip(0) =~= s@);
    while a < n && white_space(s[a])
        invariant
            n == s.len(),
            a <= n,
            trim_start(s@) == trim_start(s@.skip(a as int)),
        decreases n - a,
    {
        assert(s@.skip(a as int).drop_first() =~= s@.skip(a + 1));
        a = a + 1;
    }
    assert(trim_start(s@) == s@.skip(a as int)) by {
        if a < n {
            assert(s@.skip(a as int)[0] == s@[a as int]);
        }
    }
    let mut b: usize = n;
    while b > a && white_space(s[b - 1])
        invariant
            n == s.len(),
            a <= b <= n,
            trim_end(s@.skip(a as int)) == trim_end(s@.subrange(a as int, b as int)),
        decreases b - a,
    {
        assert(s@.subrange(a as int, b as int).drop_last() =~= s@.subrange(a as int, b - 1));
        b = b - 1;
    }
    assert(s@.subrange(a as int, n as int) =~= s@.skip(a as int));
    let res = slice_chars(s, a, b);
    assert(trim_end(res@) == res@) by {
        if res@.len() > 0 {
            assert(res@.last() == s@[b - 1]);
        }
    }
    res
}

/// The lines of `s`, as `str::lines` yields them.
pub fn split_lines(s: &Vec<char>) -> (res: Vec<Vec<char>>)
    ensures
        res.len() == lines(s@).len(),
        forall|i: int| 0 <= i < res.len() ==> #[trigger] res[i]@ == lines(s@)[i],
{
    let n = s.len();
    let mut out: Vec<Vec<char>> = Vec::new();
    let ghost mut done: Seq<Seq<char>> = seq![];
    let mut st: usize = 0;
    let mut i: usize = 0;
    assert(s@.skip(0) =~= s@);
    assert(done + lines(s@) =~= lines(s@));
    while i < n
        invariant
            n == s.len(),
            st <= i <= n,
            lines(s@) == done + lines(s@.skip(st as int)),
            out.len() == done.len(),
            forall|k: int| 0 <= k < out.len() ==> #[trigger] out[k]@ == done[k],
            forall|j: int| st <= j < i ==> s@[j] != '\n',
        decreases n - i,
    {
        if s[i] == '\n' {
            let ghost t = s@.skip(st as int);
            proof {
                assert forall|j: int| 0 <= j < i - st implies t[j] != '\n' by {
                    assert(t[j] == s@[st + j]);
                }
                lemma_first_newline(t, i - st);
                assert(t.take(i - st) =~= s@.subrange(st as int, i as int));
                assert(t.skip(i - st + 1) =~= s@.skip(i + 1));
            }
            let mut line = slice_chars(s, st, i);
            if line.len() > 0 && line[line.len() - 1] == '\r' {
                line.pop();
            }
            assert(line@ == strip_cr(s@.subrange(st as int, i as int)));
            proof {
                done = done.push(line@);
            }
            out.push(line);
            assert(lines(s@) == done + lines(s@.skip(i + 1)));
            st = i + 1;
        }
        i = i + 1;
    }
    let ghost t = s@.skip(st as int);
    proof {
        assert forall|j: int| 0 <= j < t.len() implies t[j] != '\n' by {
            assert(t[j] == s@[st + j]);
        }
        lemma_lines_single(t);
    }
    if st < n {
        let line = slice_chars(s, st, n);
        assert(line@ =~= t);
        proof {
            done = done.push(line@);
        }
        out.push(line);
    }
    assert(lines(s@) =~= done);
    out
}

/// Whether two character sequences are equal.
pub fn same_chars(a: &Vec<char>, b: &Vec<char>) -> (res: bool)
    ensures
        res == (a@ == b@),
{
    if a.len() != b.len() {
        return false;
    }
    let mut i: usize = 0;
    while i < a.len()
        invariant
            a.len() == b.len(),
            i <= a.len(),
            forall|j: int| 0 <= j < i ==> a@[j] == b@[j],
        decreases a.len() - i,
    {
        if a[i] != b[i] {
            return false;
        }
        i = i + 1;
    }
    assert(a@ =~= b@);
    true
}

} // verus!
