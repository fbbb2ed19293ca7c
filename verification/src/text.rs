//! Character-level text handling shared by the file readers: lines, Unicode
//! whitespace, trimming, whitespace-separated tokens, and unsigned decimals.
//!
//! Every function works on the `char` sequence of its input, which is what
//! `str@` is, and is stated against a spec function of the same name.
use vstd::prelude::*;

verus! {

/// The Unicode `White_Space` property, which is what `char::is_whitespace`
/// and therefore `str::trim` and `str::split_whitespace` test.
pub open spec fn is_white(c: char) -> bool {
    let u = c as u32;
    ||| 9 <= u <= 13
    ||| u == 32
    ||| u == 0x85
    ||| u == 0xA0
    ||| u == 0x1680
    ||| 0x2000 <= u <= 0x200A
    ||| u == 0x2028
    ||| u == 0x2029
    ||| u == 0x202F
    ||| u == 0x205F
    ||| u == 0x3000
}

/// Whether `c` is Unicode whitespace.
pub fn white(c: char) -> (r: bool)
    ensures
        r == is_white(c),
{
    let u = c as u32;
    (9 <= u && u <= 13) || u == 32 || u == 0x85 || u == 0xA0 || u == 0x1680 || (0x2000 <= u && u
        <= 0x200A) || u == 0x2028 || u == 0x2029 || u == 0x202F || u == 0x205F || u == 0x3000
}

/// The characters of `s`.
pub fn chars_of(s: &str) -> (v: Vec<char>)
    ensures
        v@ == s@,
{
    let mut v: Vec<char> = Vec::new();
    for c in it: s.chars()
        invariant
            it.seq() == s@,
            v@ == it.seq().take(it.index() as int),
    {
        v.push(c);
    }
    v
}

/// `String::push`: appends one character.
#[verifier::external_body]
fn push_char(s: &mut String, c: char)
    ensures
        final(s)@ == old(s)@.push(c),
{
    s.push(c);
}

/// A string holding exactly the characters of `v`.
pub fn string_of(v: &[char]) -> (s: String)
    ensures
        s@ == v@,
{
    let mut s = String::new();
    let mut i: usize = 0;
    while i < v.len()
        invariant
            i <= v.len(),
            s@ == v@.take(i as int),
        decreases v.len() - i,
    {
        push_char(&mut s, v[i]);
        proof {
            assert(v@.take(i as int).push(v@[i as int]) =~= v@.take(i + 1));
        }
        i = i + 1;
    }
    proof {
        assert(v@.take(v@.len() as int) =~= v@);
    }
    s
}

/// A string holding the characters of `v` from `start` up to `end`.
pub fn string_of_range(v: &[char], start: usize, end: usize) -> (s: String)
    requires
        start <= end <= v.len(),
    ensures
        s@ == v@.subrange(start as int, end as int),
{
    let mut s = String::new();
    let mut i: usize = start;
    while i < end
        invariant
            start <= i <= end <= v.len(),
            s@ == v@.subrange(start as int, i as int),
        decreases end - i,
    {
        push_char(&mut s, v[i]);
        proof {
            assert(v@.subrange(start as int, i as int).push(v@[i as int]) =~= v@.subrange(
                start as int,
                i + 1,
            ));
        }
        i = i + 1;
    }
    s
}

/// Whether two character sequences are equal.
pub fn same_chars(a: &[char], b: &[char]) -> (r: bool)
    ensures
        r == (a@ == b@),
{
    if a.len() != b.len() {
        return false;
    }
    let mut i: usize = 0;
    while i < a.len()
        invariant
            a.len() == b.len(),
            i <= a.len(),
            forall|k: int| 0 <= k < i ==> a@[k] == b@[k],
        decreases a.len() - i,
    {
        if a[i] != b[i] {
            return false;
        }
        i = i + 1;
    }
    proof {
        assert(a@ =~= b@);
    }
    true
}

/// Whether the characters `v` spell `word`.
pub fn is_word(v: &[char], word: &str) -> (r: bool)
    ensures
        r == (v@ == word@),
{
    let w = chars_of(word);
    same_chars(v, w.as_slice())
}

/// `s` ends with `t`.
pub open spec fn ends_with(s: Seq<char>, t: Seq<char>) -> bool {
    t.len() <= s.len() && s.subrange(s.len() - t.len(), s.len() as int) == t
}

/// Whether the characters `v` end with `word`.
pub fn ends_with_word(v: &[char], word: &str) -> (r: bool)
    ensures
        r == ends_with(v@, word@),
{
    let w = chars_of(word);
    if w.len() > v.len() {
        return false;
    }
    let off = v.len() - w.len();
    let mut i: usize = 0;
    while i < w.len()
        invariant
            off + w.len() == v.len(),
            i <= w.len(),
            w@ == word@,
            forall|k: int| 0 <= k < i ==> v@[off + k] == w@[k],
        decreases w.len() - i,
    {
        if v[off + i] != w[i] {
            assert(v@.subrange(off as int, v@.len() as int)[i as int] != w@[i as int]);
            return false;
        }
        i = i + 1;
    }
    assert(v@.subrange(off as int, v@.len() as int) =~= w@);
    true
}

// ---------------------------------------------------------------------------
// Lines
/// The pieces of `s` between its `'\n'` characters, as `split('\n')` cuts
/// them: one more piece than there are newlines.
pub open spec fn segments(s: Seq<char>) -> Seq<Seq<char>>
    decreases s.len(),
{
    if s.len() == 0 {
        seq![seq![]]
    } else {
        let p = segments(s.drop_last());
        if s.last() == '\n' {
            p.push(seq![])
        } else {
            p.update(p.len() - 1, p.last().push(s.last()))
        }
    }
}

/// A line that ended in `"\r\n"` loses the `'\r'` as well.
pub open spec fn strip_cr(l: Seq<char>) -> Seq<char> {
    if l.len() > 0 && l.last() == '\r' {
        l.drop_last()
    } else {
        l
    }
}

/// The lines of `s` as `str::lines` yields them: split at `'\n'`, a
/// `'\r'` right before a `'\n'` dropped with it, and no empty line after a
/// final line ending. A last line with no line ending keeps a trailing
/// `'\r'`.
pub open spec fn lines(s: Seq<char>) -> Seq<Seq<char>> {
    let p = segments(s);
    let ended = p.drop_last().map_values(|l: Seq<char>| strip_cr(l));
    if p.last().len() == 0 {
        ended
    } else {
        ended.push(p.last())
    }
}

/// A text always has at least one newline-separated segment.
pub proof fn lemma_segments_nonempty(s: Seq<char>)
    ensures
        segments(s).len() >= 1,
    decreases s.len(),
{
    if s.len() > 0 {
        lemma_segments_nonempty(s.drop_last());
    }
}

/// The character sequences held by a list of character vectors.
pub open spec fn char_rows(v: Seq<Vec<char>>) -> Seq<Seq<char>> {
    v.map_values(|x: Vec<char>| x@)
}

/// The lines of `text`, each as its characters.
pub fn split_lines(text: &[char]) -> (out: Vec<Vec<char>>)
    ensures
        char_rows(out@) == lines(text@),
{
    let mut done: Vec<Vec<char>> = Vec::new();
    let mut cur: Vec<char> = Vec::new();
    let mut i: usize = 0;
    while i < text.len()
        invariant
            i <= text.len(),
            segments(text@.take(i as int)).len() >= 1,
            char_rows(done@) == segments(text@.take(i as int)).drop_last().map_values(
                |l: Seq<char>| strip_cr(l),
            ),
            cur@ == segments(text@.take(i as int)).last(),
        decreases text.len() - i,
    {
        let c = text[i];
        let ghost before = text@.take(i as int);
        proof {
            assert(text@.take(i + 1).drop_last() =~= before);
            lemma_segments_nonempty(text@.take(i + 1));
        }
        if c == '\n' {
            let n = cur.len();
            let mut line = cur;
            if n > 0 && line[n - 1] == '\r' {
                line.pop();
            }
            proof {
                assert(line@ == strip_cr(segments(before).last()));
            }
            let ghost done_before = char_rows(done@);
            done.push(line);
            cur = Vec::new();
            proof {
                let p = segments(before);
                let q = segments(text@.take(i + 1));
                assert(q == p.push(seq![]));
                assert(q.drop_last() =~= p);
                assert(char_rows(done@) =~= done_before.push(strip_cr(p.last())));
                assert(p.drop_last().push(p.last()) =~= p);
                assert(p.map_values(|l: Seq<char>| strip_cr(l)) =~= p.drop_last().map_values(
                    |l: Seq<char>| strip_cr(l),
                ).push(strip_cr(p.last())));
                assert(cur@ =~= q.last());
            }
        } else {
            cur.push(c);
            proof {
                let p = segments(before);
                let q = segments(text@.take(i + 1));
                assert(q == p.update(p.len() - 1, p.last().push(c)));
                assert(q.drop_last() =~= p.drop_last());
            }
        }
        i = i + 1;
    }
    proof {
        assert(text@.take(text@.len() as int) =~= text@);
    }
    let ghost done_before = char_rows(done@);
    if cur.len() > 0 {
        done.push(cur);
        assert(char_rows(done@) =~= done_before.push(cur@));
    }
    done
}

// ---------------------------------------------------------------------------
// Trimming
/// How many whitespace characters `s` starts with.
pub open spec fn lead_white(s: Seq<char>) -> nat
    decreases s.len(),
{
    if s.len() > 0 && is_white(s[0]) {
        1 + lead_white(s.drop_first())
    } else {
        0
    }
}

/// How many whitespace characters `s` ends with.
pub open spec fn trail_white(s: Seq<char>) -> nat
    decreases s.len(),
{
    if s.len() > 0 && is_white(s.last()) {
        1 + trail_white(s.drop_last())
    } else {
        0
    }
}

/// `s` with leading and trailing whitespace removed, as `str::trim` gives it.
pub open spec fn trim(s: Seq<char>) -> Seq<char> {
    if lead_white(s) == s.len() {
        seq![]
    } else {
        s.subrange(lead_white(s) as int, s.len() - trail_white(s))
    }
}

proof fn lemma_lead_white(s: Seq<char>, i: int)
    requires
        0 <= i <= s.len(),
        forall|k: int| 0 <= k < i ==> is_white(#[trigger] s[k]),
        i == s.len() || !is_white(s[i]),
    ensures
        lead_white(s) == i,
    decreases i,
{
    if i > 0 {
        let t = s.drop_first();
        assert forall|k: int| 0 <= k < i - 1 implies is_white(#[trigger] t[k]) by {
            assert(t[k] == s[k + 1]);
        }
        if i < s.len() {
            assert(t[i - 1] == s[i]);
        }
        lemma_lead_white(t, i - 1);
    }
}

proof fn lemma_trail_white(s: Seq<char>, i: int)
    requires
        0 <= i <= s.len(),
        forall|k: int| s.len() - i <= k < s.len() ==> is_white(#[trigger] s[k]),
        i == s.len() || !is_white(s[s.len() - 1 - i]),
    ensures
        trail_white(s) == i,
    decreases i,
{
    if i > 0 {
        let t = s.drop_last();
        assert forall|k: int| t.len() - (i - 1) <= k < t.len() implies is_white(#[trigger] t[k]) by {
            assert(t[k] == s[k]);
        }
        if i < s.len() {
            assert(t[t.len() - 1 - (i - 1)] == s[s.len() - 1 - i]);
        }
        lemma_trail_white(t, i - 1);
    }
}

/// Where the trimmed part of `v[start..end]` begins and ends.
pub fn trim_bounds(v: &[char], start: usize, end: usize) -> (r: (usize, usize))
    requires
        start <= end <= v.len(),
    ensures
        start <= r.0 <= r.1 <= end,
        r.0 == start + lead_white(v@.subrange(start as int, end as int)),
        v@.subrange(r.0 as int, r.1 as int) == trim(v@.subrange(start as int, end as int)),
{
    let ghost s = v@.subrange(start as int, end as int);
    let mut i = start;
    while i < end && white(v[i])
        invariant
            start <= i <= end <= v.len(),
            s == v@.subrange(start as int, end as int),
            forall|k: int| 0 <= k < i - start ==> is_white(#[trigger] s[k]),
        decreases end - i,
    {
        i = i + 1;
    }
    proof {
        lemma_lead_white(s, i - start);
    }
    if i == end {
        assert(v@.subrange(end as int, end as int) =~= trim(s));
        return (end, end);
    }
    let mut j = end;
    while j > i && white(v[j - 1])
        invariant
            start <= i < end <= v.len(),
            i <= j <= end,
            !is_white(s[i - start]),
            s == v@.subrange(start as int, end as int),
            forall|k: int| j - start <= k < s.len() ==> is_white(#[trigger] s[k]),
        decreases j - i,
    {
        j = j - 1;
    }
    proof {
        if j == i {
            assert(is_white(s[i - start]));
        }
        lemma_trail_white(s, (end - j) as int);
        assert(v@.subrange(i as int, j as int) =~= s.subrange(
            lead_white(s) as int,
            s.len() - trail_white(s),
        ));
    }
    (i, j)
}

// ---------------------------------------------------------------------------
// Tokens
/// The maximal runs of non-whitespace characters of `s`, in order: what
/// `str::split_whitespace` yields.
pub open spec fn tokens(s: Seq<char>) -> Seq<Seq<char>>
    decreases s.len(),
{
    if s.len() == 0 {
        seq![]
    } else {
        let t = tokens(s.drop_last());
        let c = s.last();
        if is_white(c) {
            t
        } else if s.len() >= 2 && !is_white(s[s.len() - 2]) {
            t.update(t.len() - 1, t.last().push(c))
        } else {
            t.push(seq![c])
        }
    }
}

proof fn lemma_tokens_after_word(s: Seq<char>)
    requires
        s.len() >= 1,
        !is_white(s.last()),
    ensures
        tokens(s).len() >= 1,
    decreases s.len(),
{
    if s.len() >= 2 && !is_white(s[s.len() - 2]) {
        lemma_tokens_after_word(s.drop_last());
    }
}

/// The whitespace-separated tokens of `v`.
pub fn split_tokens(v: &[char]) -> (out: Vec<Vec<char>>)
    ensures
        char_rows(out@) == tokens(v@),
{
    let mut out: Vec<Vec<char>> = Vec::new();
    let mut i: usize = 0;
    while i < v.len()
        invariant
            i <= v.len(),
            char_rows(out@) == tokens(v@.take(i as int)),
        decreases v.len() - i,
    {
        let c = v[i];
        let ghost before = v@.take(i as int);
        proof {
            assert(v@.take(i + 1).drop_last() =~= before);
            assert(v@.take(i + 1).last() == c);
            if i > 0 {
                assert(v@.take(i + 1)[i - 1] == v@[i - 1]);
                assert(v@.take(i as int).last() == v@[i - 1]);
                if !is_white(v@[i - 1]) {
                    lemma_tokens_after_word(v@.take(i as int));
                }
            }
        }
        let ghost out_before = char_rows(out@);
        if white(c) {
        } else if i > 0 && !white(v[i - 1]) {
            let last = out.len() - 1;
            let mut word = out.pop().unwrap();
            word.push(c);
            out.push(word);
            proof {
                let t = tokens(before);
                assert(char_rows(out@) =~= t.update(t.len() - 1, t.last().push(c)));
            }
        } else {
            let mut word: Vec<char> = Vec::new();
            word.push(c);
            out.push(word);
            proof {
                assert(word@ =~= seq![c]);
                assert(char_rows(out@) =~= tokens(before).push(seq![c]));
            }
        }
        i = i + 1;
    }
    proof {
        assert(v@.take(v@.len() as int) =~= v@);
    }
    out
}

/// Where the first whitespace character of `s` is, if any.
pub open spec fn first_white(s: Seq<char>) -> Option<nat>
    decreases s.len(),
{
    if s.len() == 0 {
        None
    } else if is_white(s[0]) {
        Some(0)
    } else {
        match first_white(s.drop_first()) {
            Some(k) => Some(k + 1),
            None => None,
        }
    }
}

proof fn lemma_first_white(s: Seq<char>, i: int)
    requires
        0 <= i <= s.len(),
        forall|k: int| 0 <= k < i ==> !is_white(#[trigger] s[k]),
    ensures
        i == s.len() ==> first_white(s) == None::<nat>,
        i < s.len() && is_white(s[i]) ==> first_white(s) == Some(i as nat),
    decreases i,
{
    if i > 0 {
        let t = s.drop_first();
        assert forall|k: int| 0 <= k < i - 1 implies !is_white(#[trigger] t[k]) by {
            assert(t[k] == s[k + 1]);
        }
        if i < s.len() {
            assert(t[i - 1] == s[i]);
        }
        lemma_first_white(t, i - 1);
    }
}

/// Where the first whitespace character of `v` is, if any.
pub fn find_white(v: &[char]) -> (r: Option<usize>)
    ensures
        match r {
            Some(k) => first_white(v@) == Some(k as nat) && k < v.len(),
            None => first_white(v@) == None::<nat>,
        },
{
    let mut i: usize = 0;
    while i < v.len()
        invariant
            i <= v.len(),
            forall|k: int| 0 <= k < i ==> !is_white(#[trigger] v@[k]),
        decreases v.len() - i,
    {
        if white(v[i]) {
            proof {
                lemma_first_white(v@, i as int);
            }
            return Some(i);
        }
        i = i + 1;
    }
    proof {
        lemma_first_white(v@, i as int);
    }
    None
}

// ---------------------------------------------------------------------------
// Unsigned decimals
/// `c` is an ASCII digit.
pub open spec fn is_digit(c: char) -> bool {
    '0' <= c <= '9'
}

/// The value of an ASCII digit.
pub open spec fn digit_value(c: char) -> nat {
    (c as nat - '0' as nat) as nat
}

/// The value of a string of decimal digits.
pub open spec fn digits_value(s: Seq<char>) -> nat
    decreases s.len(),
{
    if s.len() == 0 {
        0
    } else {
        digits_value(s.drop_last()) * 10 + digit_value(s.last())
    }
}

/// `s` is made of ASCII digits only.
pub open spec fn all_digits(s: Seq<char>) -> bool {
    forall|k: int| 0 <= k < s.len() ==> is_digit(#[trigger] s[k])
}

/// What `usize::from_str` gives: an optional `'+'`, then one or more ASCII
/// digits whose value fits.
pub open spec fn parse_usize(s: Seq<char>) -> Option<usize> {
    let d = if s.len() > 0 && s[0] == '+' {
        s.drop_first()
    } else {
        s
    };
    if d.len() > 0 && all_digits(d) && digits_value(d) <= usize::MAX {
        Some(digits_value(d) as usize)
    } else {
        None
    }
}

proof fn lemma_digits_value_grows(s: Seq<char>, i: int)
    requires
        0 <= i <= s.len(),
    ensures
        digits_value(s.take(i)) <= digits_value(s),
    decreases s.len() - i,
{
    if i < s.len() {
        lemma_digits_value_grows(s, i + 1);
        assert(s.take(i + 1).drop_last() =~= s.take(i));
    } else {
        assert(s.take(i) =~= s);
    }
}

/// The unsigned integer `v` spells, as `usize::from_str` reads it.
pub fn parse_index(v: &[char]) -> (r: Option<usize>)
    ensures
        r == parse_usize(v@),
{
    let ghost d = if v@.len() > 0 && v@[0] == '+' {
        v@.drop_first()
    } else {
        v@
    };
    let start: usize = if v.len() > 0 && v[0] == '+' {
        1
    } else {
        0
    };
    assert(d =~= v@.subrange(start as int, v@.len() as int));
    if start == v.len() {
        return None;
    }
    let mut value: usize = 0;
    let mut i = start;
    while i < v.len()
        invariant
            start <= i <= v.len(),
            d == (if v@.len() > 0 && v@[0] == '+' {
                v@.drop_first()
            } else {
                v@
            }),
            d =~= v@.subrange(start as int, v@.len() as int),
            all_digits(d.take(i - start)),
            value == digits_value(d.take(i - start)),
        decreases v.len() - i,
    {
        let c = v[i];
        proof {
            assert(d[i - start] == c);
            assert(d.take(i - start + 1).drop_last() =~= d.take(i - start));
        }
        if !('0' <= c && c <= '9') {
            assert(!is_digit(d[i - start]));
            assert(!all_digits(d));
            assert(parse_usize(v@) == None::<usize>);
            return None;
        }
        let digit = (c as u32 - '0' as u32) as usize;
        if value > (usize::MAX - digit) / 10 {
            proof {
                assert(digits_value(d.take(i - start + 1)) == value * 10 + digit);
                assert(value * 10 + digit > usize::MAX) by (nonlinear_arith)
                    requires
                        value > (usize::MAX - digit) / 10,
                        digit <= 9,
                ;
                lemma_digits_value_grows(d, i - start + 1);
                assert(parse_usize(v@) == None::<usize>);
            }
            return None;
        }
        proof {
            assert(value * 10 + digit <= usize::MAX) by (nonlinear_arith)
                requires
                    value <= (usize::MAX - digit) / 10,
                    digit <= 9,
            ;
            assert forall|k: int| 0 <= k < i - start + 1 implies is_digit(
                #[trigger] d.take(i - start + 1)[k],
            ) by {
                if k < i - start {
                    assert(d.take(i - start + 1)[k] == d.take(i - start)[k]);
                }
            }
        }
        value = value * 10 + digit;
        i = i + 1;
    }
    proof {
        assert(d.take(d.len() as int) =~= d);
    }
    Some(value)
}

/// The decimal spelling of `n`, with no leading zeros.
pub open spec fn decimal(n: nat) -> Seq<char>
    decreases n,
{
    if n < 10 {
        seq![digit_char(n)]
    } else {
        decimal(n / 10).push(digit_char(n % 10))
    }
}

/// The ASCII digit for `n < 10`.
pub open spec fn digit_char(n: nat) -> char {
    if n == 0 {
        '0'
    } else if n == 1 {
        '1'
    } else if n == 2 {
        '2'
    } else if n == 3 {
        '3'
    } else if n == 4 {
        '4'
    } else if n == 5 {
        '5'
    } else if n == 6 {
        '6'
    } else if n == 7 {
        '7'
    } else if n == 8 {
        '8'
    } else {
        '9'
    }
}

/// The ASCII digit for `n < 10`.
fn digit(n: usize) -> (c: char)
    requires
        n < 10,
    ensures
        c == digit_char(n as nat),
{
    if n == 0 {
        '0'
    } else if n == 1 {
        '1'
    } else if n == 2 {
        '2'
    } else if n == 3 {
        '3'
    } else if n == 4 {
        '4'
    } else if n == 5 {
        '5'
    } else if n == 6 {
        '6'
    } else if n == 7 {
        '7'
    } else if n == 8 {
        '8'
    } else {
        '9'
    }
}

/// Appends the decimal spelling of `n` to `out`.
pub fn push_decimal(out: &mut String, n: usize)
    ensures
        final(out)@ == old(out)@ + decimal(n as nat),
    decreases n,
{
    if n >= 10 {
        push_decimal(out, n / 10);
    }
    push_char(out, digit(n % 10));
    proof {
        if n >= 10 {
            assert(old(out)@ + decimal(n as nat) =~= old(out)@ + decimal((n / 10) as nat) + seq![
                digit_char((n % 10) as nat),
            ]);
        } else {
            assert(old(out)@ + decimal(n as nat) =~= old(out)@.push(digit_char(n as nat)));
        }
    }
}

/// Appends `s` to `out`.
pub fn push_str(out: &mut String, s: &str)
    ensures
        final(out)@ == old(out)@ + s@,
{
    out.append(s);
}

} // verus!
