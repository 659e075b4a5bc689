//! Character-sequence utilities shared by the request parser and the
//! response serializer: searching, substring extraction, whitespace
//! handling, and decimal rendering of lengths.

use vstd::prelude::*;

verus! {

/// ASCII whitespace: the separators recognized in a request line and
/// around header names and values.
pub open spec fn is_space(c: char) -> bool {
    c == ' ' || c == '\t' || c == '\n' || c == '\r' || c == '\u{b}' || c == '\u{c}'
}

/// No carriage return or line feed among the characters.
pub open spec fn crlf_free(s: Seq<char>) -> bool {
    forall|i: int| 0 <= i < s.len() ==> s[i] != '\r' && s[i] != '\n'
}

/// Index of the first occurrence of `c` in `s`, if any.
pub open spec fn find_char(s: Seq<char>, c: char) -> Option<int>
    decreases s.len(),
{
    if s.len() == 0 {
        None
    } else if s[0] == c {
        Some(0int)
    } else {
        match find_char(s.drop_first(), c) {
            Some(i) => Some(i + 1),
            None => None,
        }
    }
}

/// What `find_char` returns: the position of `c`, with no earlier one.
pub proof fn lemma_find_char(s: Seq<char>, c: char)
    ensures
        match find_char(s, c) {
            Some(i) => 0 <= i < s.len() && s[i] == c && (forall|j: int| 0 <= j < i ==> s[j] != c),
            None => forall|j: int| 0 <= j < s.len() ==> s[j] != c,
        },
    decreases s.len(),
{
    if s.len() > 0 && s[0] != c {
        lemma_find_char(s.drop_first(), c);
        assert forall|j: int| 1 <= j < s.len() implies s[j] == s.drop_first()[j - 1] by {}
    }
}

/// Appends one character to a string.
///
/// Relies on `String::push`: it appends exactly the given character.
#[verifier::external_body]
pub(crate) fn push_char(s: &mut String, c: char)
    ensures
        final(s)@ == old(s)@.push(c),
{
    s.push(c)
}

/// The characters of `s`, as a vector.
pub fn chars_of(s: &str) -> (v: Vec<char>)
    ensures
        v@ == s@,
{
    let n = s.unicode_len();
    let mut v: Vec<char> = Vec::new();
    let mut i: usize = 0;
    while i < n
        invariant
            n == s@.len(),
            i <= n,
            v@ == s@.take(i as int),
        decreases n - i,
    {
        v.push(s.get_char(i));
        i = i + 1;
        assert(v@ =~= s@.take(i as int));
    }
    assert(v@ =~= s@);
    v
}

/// The substring `v[from..to]`, as an owned string.
pub fn string_from_range(v: &Vec<char>, from: usize, to: usize) -> (r: String)
    requires
        from <= to <= v@.len(),
    ensures
        r@ == v@.subrange(from as int, to as int),
{
    let mut r = String::new();
    let mut i: usize = from;
    while i < to
        invariant
            from <= i <= to <= v@.len(),
            r@ == v@.subrange(from as int, i as int),
        decreases to - i,
    {
        push_char(&mut r, v[i]);
        i = i + 1;
        assert(r@ =~= v@.subrange(from as int, i as int));
    }
    r
}

/// The first position at or after `from` (and before `to`) holding `c`.
pub fn find_char_range(v: &Vec<char>, from: usize, to: usize, c: char) -> (r: Option<usize>)
    requires
        from <= to <= v@.len(),
    ensures
        match r {
            Some(i) => from <= i < to && v@[i as int] == c && (forall|j: int|
                from <= j < i ==> v@[j] != c),
            None => forall|j: int| from <= j < to ==> v@[j] != c,
        },
        find_char(v@.subrange(from as int, to as int), c) == match r {
            Some(i) => Some(i - from),
            None => None::<int>,
        },
{
    let ghost w = v@.subrange(from as int, to as int);
    let mut i: usize = from;
    let mut found: Option<usize> = None;
    while i < to && found.is_none()
        invariant
            from <= i <= to <= v@.len(),
            match found {
                Some(k) => from <= k < to && i == k + 1 && v@[k as int] == c && (forall|j: int|
                    from <= j < k ==> v@[j] != c),
                None => forall|j: int| from <= j < i ==> v@[j] != c,
            },
        decreases to - i,
    {
        if v[i] == c {
            found = Some(i);
        }
        i = i + 1;
    }
    proof {
        lemma_find_char(w, c);
        assert forall|j: int| 0 <= j < w.len() implies w[j] == v@[from + j] by {}
        match found {
            Some(k) => {
                assert(w[k - from] == c);
                match find_char(w, c) {
                    Some(fi) => {
                        assert(fi == k - from);
                    },
                    None => {
                        assert(w[k - from] != c);
                    },
                }
            },
            None => {
                match find_char(w, c) {
                    Some(fi) => {
                        assert(v@[from + fi] != c);
                    },
                    None => {},
                }
            },
        }
    }
    found
}

/// Whether `p` occurs in `s` starting at position `i`.
pub open spec fn matches_at(s: Seq<char>, p: Seq<char>, i: int) -> bool {
    0 <= i && i + p.len() <= s.len() && s.subrange(i, i + p.len()) == p
}

/// The first position where `p` occurs in `s`, if any.
pub open spec fn find_seq(s: Seq<char>, p: Seq<char>) -> Option<int>
    decreases s.len(),
{
    if matches_at(s, p, 0) {
        Some(0int)
    } else if s.len() == 0 {
        None
    } else {
        match find_seq(s.drop_first(), p) {
            Some(i) => Some(i + 1),
            None => None,
        }
    }
}

/// What `find_seq` returns: the first occurrence of `p`, with none
/// earlier.
pub proof fn lemma_find_seq(s: Seq<char>, p: Seq<char>)
    requires
        p.len() > 0,
    ensures
        match find_seq(s, p) {
            Some(i) => matches_at(s, p, i) && (forall|j: int| 0 <= j < i ==> !matches_at(s, p, j)),
            None => forall|j: int| 0 <= j < s.len() ==> !matches_at(s, p, j),
        },
    decreases s.len(),
{
    if !matches_at(s, p, 0) && s.len() > 0 {
        let t = s.drop_first();
        lemma_find_seq(t, p);
        assert forall|j: int| 0 <= j < t.len() implies matches_at(t, p, j) == matches_at(
            s,
            p,
            j + 1,
        ) by {
            if 0 <= j && j + p.len() <= t.len() {
                assert(t.subrange(j, j + p.len()) =~= s.subrange(j + 1, j + 1 + p.len()));
            }
        }
        match find_seq(t, p) {
            Some(i) => {
                assert(matches_at(s, p, i + 1));
                assert forall|j: int| 0 <= j < i + 1 implies !matches_at(s, p, j) by {
                    if j > 0 {
                        assert(!matches_at(t, p, j - 1));
                    }
                }
            },
            None => {
                assert forall|j: int| 0 <= j < s.len() implies !matches_at(s, p, j) by {
                    if j > 0 {
                        assert(!matches_at(t, p, j - 1));
                    }
                }
            },
        }
    }
}

/// The pieces of `s` between occurrences of the separator `c`; a
/// separator at the edge yields an empty piece.
pub open spec fn split_char(s: Seq<char>, c: char) -> Seq<Seq<char>>
    decreases s.len(),
    via split_char_decreases
{
    match find_char(s, c) {
        None => seq![s],
        Some(i) => seq![s.take(i)] + split_char(s.skip(i + 1), c),
    }
}

#[via_fn]
proof fn split_char_decreases(s: Seq<char>, c: char) {
    lemma_find_char(s, c);
}

/// A trailing carriage return, removed.
pub open spec fn strip_cr(l: Seq<char>) -> Seq<char> {
    if l.len() > 0 && l.last() == '\r' {
        l.drop_last()
    } else {
        l
    }
}

/// The lines of `s`: pieces split at `'\n'`, each stripped of one
/// trailing `'\r'`. A final piece without a newline keeps its
/// characters as they are, and a trailing newline adds no empty line.
pub open spec fn spec_lines(s: Seq<char>) -> Seq<Seq<char>>
    decreases s.len(),
    via spec_lines_decreases
{
    if s.len() == 0 {
        seq![]
    } else {
        match find_char(s, '\n') {
            Some(i) => seq![strip_cr(s.take(i))] + spec_lines(s.skip(i + 1)),
            None => seq![s],
        }
    }
}

#[via_fn]
proof fn spec_lines_decreases(s: Seq<char>) {
    lemma_find_char(s, '\n');
}

/// The leading run of non-whitespace characters.
pub open spec fn leading_token(s: Seq<char>) -> Seq<char>
    decreases s.len(),
{
    if s.len() > 0 && !is_space(s[0]) {
        seq![s[0]] + leading_token(s.drop_first())
    } else {
        Seq::empty()
    }
}

/// `leading_token` is the prefix up to the first whitespace character.
pub proof fn lemma_leading_token(s: Seq<char>, j: int)
    requires
        0 <= j <= s.len(),
        forall|k: int| 0 <= k < j ==> !is_space(s[k]),
        j == s.len() || is_space(s[j]),
    ensures
        leading_token(s) == s.take(j),
    decreases j,
{
    if j == 0 {
        assert(leading_token(s) =~= s.take(0));
    } else {
        let t = s.drop_first();
        assert(forall|k: int| 0 <= k < j - 1 ==> t[k] == s[k + 1]);
        lemma_leading_token(t, j - 1);
        assert(leading_token(s) =~= s.take(j));
    }
}

/// The whitespace-separated tokens of `s`: the maximal runs of
/// non-whitespace characters, in order.
pub open spec fn split_ws(s: Seq<char>) -> Seq<Seq<char>>
    decreases s.len(),
    via split_ws_decreases
{
    if s.len() == 0 {
        seq![]
    } else if is_space(s[0]) {
        split_ws(s.drop_first())
    } else {
        seq![leading_token(s)] + split_ws(s.skip(leading_token(s).len() as int))
    }
}

#[via_fn]
proof fn split_ws_decreases(s: Seq<char>) {
    if s.len() > 0 && !is_space(s[0]) {
        lemma_leading_token_len(s);
    }
}

/// A leading token is nonempty exactly when the string starts with a
/// non-whitespace character, and never longer than the string.
pub proof fn lemma_leading_token_len(s: Seq<char>)
    ensures
        leading_token(s).len() <= s.len(),
        s.len() > 0 && !is_space(s[0]) ==> leading_token(s).len() >= 1,
    decreases s.len(),
{
    if s.len() > 0 && !is_space(s[0]) {
        lemma_leading_token_len(s.drop_first());
    }
}

/// `s` with leading whitespace removed.
pub open spec fn trim_start(s: Seq<char>) -> Seq<char>
    decreases s.len(),
{
    if s.len() > 0 && is_space(s[0]) {
        trim_start(s.drop_first())
    } else {
        s
    }
}

/// `s` with trailing whitespace removed.
pub open spec fn trim_end(s: Seq<char>) -> Seq<char>
    decreases s.len(),
{
    if s.len() > 0 && is_space(s.last()) {
        trim_end(s.drop_last())
    } else {
        s
    }
}

/// `s` with surrounding whitespace removed.
pub open spec fn trim(s: Seq<char>) -> Seq<char> {
    trim_end(trim_start(s))
}

/// `trim_start` drops exactly the leading whitespace run.
pub proof fn lemma_trim_start(s: Seq<char>, k: int)
    requires
        0 <= k <= s.len(),
        forall|j: int| 0 <= j < k ==> is_space(s[j]),
        k == s.len() || !is_space(s[k]),
    ensures
        trim_start(s) == s.skip(k),
    decreases k,
{
    if k == 0 {
        assert(trim_start(s) =~= s.skip(0));
    } else {
        let t = s.drop_first();
        assert(forall|j: int| 0 <= j < k - 1 ==> t[j] == s[j + 1]);
        lemma_trim_start(t, k - 1);
        assert(t.skip(k - 1) =~= s.skip(k));
    }
}

/// `trim_end` drops exactly the trailing whitespace run.
pub proof fn lemma_trim_end(s: Seq<char>, m: int)
    requires
        0 <= m <= s.len(),
        forall|j: int| m <= j < s.len() ==> is_space(s[j]),
        m == 0 || !is_space(s[m - 1]),
    ensures
        trim_end(s) == s.take(m),
    decreases s.len(),
{
    if m == s.len() {
        if s.len() > 0 && is_space(s.last()) {
            assert(!is_space(s[m - 1]));
            assert(false);
        }
        assert(trim_end(s) =~= s.take(m));
    } else {
        let t = s.drop_last();
        assert(forall|j: int| 0 <= j < t.len() ==> t[j] == s[j]);
        lemma_trim_end(t, m);
        assert(t.take(m) =~= s.take(m));
    }
}

fn is_space_char(c: char) -> (r: bool)
    ensures
        r == is_space(c),
{
    c == ' ' || c == '\t' || c == '\n' || c == '\r' || c == '\u{b}' || c == '\u{c}'
}

/// The whitespace-separated tokens of `v[from..to]`, as owned strings.
pub fn tokenize(v: &Vec<char>, from: usize, to: usize) -> (toks: Vec<String>)
    requires
        from <= to <= v@.len(),
    ensures
        toks.deep_view() == split_ws(v@.subrange(from as int, to as int)),
{
    let ghost whole = v@.subrange(from as int, to as int);
    let mut toks: Vec<String> = Vec::new();
    let mut i: usize = from;
    while i < to
        invariant
            from <= i <= to <= v@.len(),
            toks.deep_view() + split_ws(v@.subrange(i as int, to as int)) == split_ws(whole),
        decreases to - i,
    {
        let ghost rest = v@.subrange(i as int, to as int);
        if is_space_char(v[i]) {
            i = i + 1;
            proof {
                assert(rest.drop_first() =~= v@.subrange(i as int, to as int));
            }
        } else {
            let mut j: usize = i + 1;
            while j < to && !is_space_char(v[j])
                invariant
                    i < j <= to <= v@.len(),
                    forall|k: int| i <= k < j ==> !is_space(v@[k]),
                decreases to - j,
            {
                j = j + 1;
            }
            assert(j == to || is_space(v@[j as int]));
            proof {
                assert(forall|k: int| 0 <= k < j - i ==> rest[k] == v@[i + k]);
                lemma_leading_token(rest, j - i);
                assert(leading_token(rest) =~= v@.subrange(i as int, j as int));
                assert(rest.skip(j - i) =~= v@.subrange(j as int, to as int));
            }
            let ghost pre = toks.deep_view();
            let tok = string_from_range(v, i, j);
            toks.push(tok);
            proof {
                let fin = toks.deep_view();
                assert(fin.len() == pre.len() + 1);
                assert forall|m: int| 0 <= m < fin.len() implies fin[m] == (pre.push(
                    v@.subrange(i as int, j as int),
                ))[m] by {
                    assert(fin[m] == toks@[m]@);
                    if m < pre.len() {
                        assert(pre[m] == toks@[m]@);
                    }
                }
                assert(fin =~~= pre.push(v@.subrange(i as int, j as int)));
                assert(toks.deep_view() + split_ws(v@.subrange(j as int, to as int)) =~~= split_ws(
                    whole,
                ));
            }
            i = j;
        }
    }
    proof {
        assert(v@.subrange(i as int, to as int).len() == 0);
        assert(split_ws(v@.subrange(i as int, to as int)) =~= Seq::<Seq<char>>::empty());
        assert(toks.deep_view() =~~= split_ws(whole));
    }
    toks
}

/// The substring `v[from..to]` with surrounding whitespace removed, as
/// an owned string.
pub fn trim_range(v: &Vec<char>, from: usize, to: usize) -> (r: String)
    requires
        from <= to <= v@.len(),
    ensures
        r@ == trim(v@.subrange(from as int, to as int)),
{
    let ghost whole = v@.subrange(from as int, to as int);
    let mut lo: usize = from;
    while lo < to && is_space_char(v[lo])
        invariant
            from <= lo <= to <= v@.len(),
            forall|j: int| from <= j < lo ==> is_space(v@[j]),
        decreases to - lo,
    {
        lo = lo + 1;
    }
    let mut hi: usize = to;
    while hi > lo && is_space_char(v[hi - 1])
        invariant
            lo <= hi <= to <= v@.len(),
            forall|j: int| hi <= j < to ==> is_space(v@[j]),
        decreases hi,
    {
        hi = hi - 1;
    }
    proof {
        assert(forall|k: int| 0 <= k < whole.len() ==> whole[k] == v@[from + k]);
        lemma_trim_start(whole, lo - from);
        let started = whole.skip(lo - from);
        assert(started =~= v@.subrange(lo as int, to as int));
        assert(forall|k: int| 0 <= k < started.len() ==> started[k] == v@[lo + k]);
        lemma_trim_end(started, hi - lo);
        assert(started.take(hi - lo) =~= v@.subrange(lo as int, hi as int));
    }
    string_from_range(v, lo, hi)
}

/// The decimal digit `d`, as a character.
pub open spec fn digit_char(d: nat) -> char {
    if d == 0 {
        '0'
    } else if d == 1 {
        '1'
    } else if d == 2 {
        '2'
    } else if d == 3 {
        '3'
    } else if d == 4 {
        '4'
    } else if d == 5 {
        '5'
    } else if d == 6 {
        '6'
    } else if d == 7 {
        '7'
    } else if d == 8 {
        '8'
    } else {
        '9'
    }
}

/// The decimal rendering of `n`, most significant digit first.
pub open spec fn decimal_of(n: nat) -> Seq<char>
    decreases n,
{
    if n < 10 {
        seq![digit_char(n)]
    } else {
        decimal_of(n / 10).push(digit_char(n % 10))
    }
}

/// Every character of a decimal rendering is a digit, never a carriage
/// return or line feed.
pub proof fn lemma_decimal_crlf_free(n: nat)
    ensures
        crlf_free(decimal_of(n)),
    decreases n,
{
    if n >= 10 {
        lemma_decimal_crlf_free(n / 10);
    }
}

fn digit_of(d: usize) -> (c: char)
    requires
        d < 10,
    ensures
        c == digit_char(d as nat),
{
    if d == 0 {
        '0'
    } else if d == 1 {
        '1'
    } else if d == 2 {
        '2'
    } else if d == 3 {
        '3'
    } else if d == 4 {
        '4'
    } else if d == 5 {
        '5'
    } else if d == 6 {
        '6'
    } else if d == 7 {
        '7'
    } else if d == 8 {
        '8'
    } else {
        '9'
    }
}

/// Renders `n` in decimal.
pub fn decimal_string(n: usize) -> (r: String)
    ensures
        r@ == decimal_of(n as nat),
    decreases n,
{
    if n < 10 {
        let mut r = String::new();
        push_char(&mut r, digit_of(n));
        assert(r@ =~= decimal_of(n as nat));
        r
    } else {
        let mut r = decimal_string(n / 10);
        push_char(&mut r, digit_of(n % 10));
        r
    }
}

} // verus!
