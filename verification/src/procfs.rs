//! The text of `/proc/<pid>/{comm,cmdline,stat}` and decimal numbers.

use vstd::prelude::*;
use crate::text::{chars_of, string_from_chars};

verus! {

/// Unicode `White_Space`, the set that `char::is_whitespace` and
/// `str::split_whitespace` / `str::trim` go by.
pub open spec fn is_ws(c: char) -> bool {
    let u = c as u32;
    ||| 0x09 <= u <= 0x0D
    ||| u == 0x20
    ||| u == 0x85
    ||| u == 0xA0
    ||| u == 0x1680
    ||| 0x2000 <= u <= 0x200A
    ||| u == 0x2028
    ||| u == 0x2029
    ||| u == 0x202F
    ||| u == 0x205F
    ||| u == 0x3000
}

/// Whether `c` is Unicode white space.
pub fn is_whitespace(c: char) -> (r: bool)
    ensures
        r == is_ws(c),
{
    let u = c as u32;
    (0x09 <= u && u <= 0x0D) || u == 0x20 || u == 0x85 || u == 0xA0 || u == 0x1680 || (0x2000
        <= u && u <= 0x200A) || u == 0x2028 || u == 0x2029 || u == 0x202F || u == 0x205F || u
        == 0x3000
}

/// Length of the run of non-white-space characters at the start of `s`.
pub open spec fn word_len(s: Seq<char>) -> nat
    decreases s.len(),
{
    if s.len() == 0 || is_ws(s[0]) {
        0
    } else {
        1 + word_len(s.drop_first())
    }
}

pub proof fn lemma_word_len_bound(s: Seq<char>)
    ensures
        word_len(s) <= s.len(),
        s.len() > 0 && !is_ws(s[0]) ==> word_len(s) >= 1,
    decreases s.len(),
{
    if s.len() > 0 && !is_ws(s[0]) {
        lemma_word_len_bound(s.drop_first());
    }
}

/// The white-space separated words of `s`, as `str::split_whitespace`
/// yields them.
pub open spec fn ws_fields(s: Seq<char>) -> Seq<Seq<char>>
    decreases s.len(),
{
    if s.len() == 0 {
        Seq::empty()
    } else if is_ws(s[0]) {
        ws_fields(s.drop_first())
    } else {
        let k = word_len(s);
        proof {
            lemma_word_len_bound(s);
        }
        seq![s.take(k as int)] + ws_fields(s.skip(k as int))
    }
}

pub open spec fn is_digit(c: char) -> bool {
    0x30 <= (c as u32) <= 0x39
}

pub open spec fn digit_val(c: char) -> nat {
    ((c as u32) - 0x30) as nat
}

/// The number that a string of decimal digits spells.
pub open spec fn digits_value(d: Seq<char>) -> nat
    decreases d.len(),
{
    if d.len() == 0 {
        0
    } else {
        digits_value(d.drop_last()) * 10 + digit_val(d.last())
    }
}

/// The digits part of a number: without one leading `+`.
pub open spec fn unsigned_digits(s: Seq<char>) -> Seq<char> {
    if s.len() > 0 && s[0] == '+' {
        s.drop_first()
    } else {
        s
    }
}

pub open spec fn all_digits(d: Seq<char>) -> bool {
    forall|i: int| 0 <= i < d.len() ==> is_digit(#[trigger] d[i])
}

/// What `str::parse::<u64>` accepts: an optional `+`, then one or more
/// decimal digits whose value fits in 64 bits.
pub open spec fn parse_u64_spec(s: Seq<char>) -> Option<u64> {
    let d = unsigned_digits(s);
    if d.len() > 0 && all_digits(d) && digits_value(d) <= u64::MAX {
        Some(digits_value(d) as u64)
    } else {
        None
    }
}

proof fn lemma_digits_prefix_le(d: Seq<char>, k: int)
    requires
        0 <= k <= d.len(),
    ensures
        digits_value(d.take(k)) <= digits_value(d),
    decreases d.len() - k,
{
    if k < d.len() {
        lemma_digits_prefix_le(d, k + 1);
        assert(d.take(k + 1).drop_last() =~= d.take(k));
    } else {
        assert(d.take(k) =~= d);
    }
}

/// Parses `s[from..to]` as `str::parse::<u64>` would.
pub fn parse_u64_range(s: &Vec<char>, from: usize, to: usize) -> (r: Option<u64>)
    requires
        from <= to <= s@.len(),
    ensures
        r == parse_u64_spec(s@.subrange(from as int, to as int)),
{
    let ghost w = s@.subrange(from as int, to as int);
    let mut start = from;
    if from < to && s[from] == '+' {
        start = from + 1;
    }
    let ghost d = s@.subrange(start as int, to as int);
    assert(d =~= unsigned_digits(w));
    if start == to {
        return None;
    }
    let mut acc: u64 = 0;
    let mut i = start;
    while i < to
        invariant
            start <= i <= to <= s@.len(),
            d == s@.subrange(start as int, to as int),
            w == s@.subrange(from as int, to as int),
            d == unsigned_digits(w),
            d.len() > 0,
            forall|j: int| start <= j < i ==> is_digit(#[trigger] s@[j]),
            acc == digits_value(d.take(i - start)),
        decreases to - i,
    {
        let c = s[i];
        assert(c == d[i - start]);
        if !((c as u32) >= 0x30 && (c as u32) <= 0x39) {
            proof {
                let idx = i - start;
                assert(0 <= idx < d.len());
                assert(!is_digit(d[idx]));
                assert(!all_digits(d));
                assert(parse_u64_spec(w) is None);
            }
            return None;
        }
        let digit = (c as u32 - 0x30) as u64;
        proof {
            assert(d.take(i - start + 1).drop_last() =~= d.take(i - start));
            assert(d.take(i - start + 1).last() == c);
        }
        match acc.checked_mul(10) {
            Some(m) => match m.checked_add(digit) {
                Some(v) => {
                    acc = v;
                },
                None => {
                    proof {
                        lemma_digits_prefix_le(d, i - start + 1);
                    }
                    return None;
                },
            },
            None => {
                proof {
                    lemma_digits_prefix_le(d, i - start + 1);
                }
                return None;
            },
        }
        i = i + 1;
    }
    assert(d.take(d.len() as int) =~= d);
    assert(forall|j: int| 0 <= j < d.len() ==> d[j] == s@[start + j]);
    Some(acc)
}


proof fn lemma_fields_skip_ws(s: Seq<char>, i: int)
    requires
        0 <= i < s.len(),
        is_ws(s[i]),
    ensures
        ws_fields(s.skip(i)) == ws_fields(s.skip(i + 1)),
{
    assert(s.skip(i).drop_first() =~= s.skip(i + 1));
}

proof fn lemma_word_step(s: Seq<char>, i: int)
    requires
        0 <= i < s.len(),
        !is_ws(s[i]),
    ensures
        word_len(s.skip(i)) == 1 + word_len(s.skip(i + 1)),
{
    assert(s.skip(i).drop_first() =~= s.skip(i + 1));
}

proof fn lemma_fields_word(s: Seq<char>, i: int, j: int)
    requires
        0 <= i < j <= s.len(),
        !is_ws(s[i]),
        j == i + word_len(s.skip(i)),
    ensures
        ws_fields(s.skip(i)) == seq![s.subrange(i, j)] + ws_fields(s.skip(j)),
{
    let t = s.skip(i);
    lemma_word_len_bound(t);
    assert(t.take(j - i) =~= s.subrange(i, j));
    assert(t.skip(j - i) =~= s.skip(j));
}

/// Bounds of the `n`-th white-space separated word of `s[start..]`.
pub fn nth_field(s: &Vec<char>, start: usize, n: usize) -> (r: Option<(usize, usize)>)
    requires
        start <= s@.len(),
    ensures
        match r {
            Some((a, b)) => {
                &&& start <= a <= b <= s@.len()
                &&& ws_fields(s@.skip(start as int)).len() > n
                &&& ws_fields(s@.skip(start as int))[n as int] == s@.subrange(a as int, b as int)
            },
            None => ws_fields(s@.skip(start as int)).len() <= n,
        },
{
    let len = s.len();
    let ghost all = ws_fields(s@.skip(start as int));
    let mut i = start;
    let mut count: usize = 0;
    loop
        invariant
            len == s@.len(),
            start <= i <= len,
            count <= n,
            all == ws_fields(s@.skip(start as int)),
            count <= all.len(),
            all.skip(count as int) == ws_fields(s@.skip(i as int)),
        decreases len - i,
    {
        let ghost i0 = i;
        while i < len && is_whitespace(s[i])
            invariant
                len == s@.len(),
                start <= i <= len,
                i0 <= i,
                count <= all.len(),
                all.skip(count as int) == ws_fields(s@.skip(i as int)),
            decreases len - i,
        {
            proof {
                lemma_fields_skip_ws(s@, i as int);
            }
            i = i + 1;
        }
        if i == len {
            assert(s@.skip(i as int) =~= Seq::<char>::empty());
            assert(ws_fields(s@.skip(i as int)) =~= Seq::<Seq<char>>::empty());
            return None;
        }
        let a = i;
        let mut j = i;
        while j < len && !is_whitespace(s[j])
            invariant
                len == s@.len(),
                a <= j <= len,
                word_len(s@.skip(a as int)) == (j - a) + word_len(s@.skip(j as int)),
            decreases len - j,
        {
            proof {
                lemma_word_step(s@, j as int);
            }
            j = j + 1;
        }
        proof {
            if j < len {
                assert(s@.skip(j as int)[0] == s@[j as int]);
            } else {
                assert(s@.skip(j as int).len() == 0);
            }
            assert(word_len(s@.skip(j as int)) == 0);
            lemma_word_step(s@, a as int);
            lemma_fields_word(s@, a as int, j as int);
            assert(all.skip(count as int)[0] == s@.subrange(a as int, j as int));
            assert(all.skip(count as int + 1) =~= all.skip(count as int).drop_first());
            assert(j > a);
        }
        if count == n {
            return Some((a, j));
        }
        count = count + 1;
        i = j;
    }
}

/// Index of the last `)` of `s`.
pub open spec fn last_paren(s: Seq<char>) -> Option<int>
    decreases s.len(),
{
    if s.len() == 0 {
        None
    } else if s.last() == ')' {
        Some(s.len() - 1)
    } else {
        last_paren(s.drop_last())
    }
}

/// Cutting `s` two bytes after its last `)` falls inside it and on a
/// character boundary: the character after the `)` is ASCII.
pub open spec fn stat_cut_ok(s: Seq<char>) -> bool {
    match last_paren(s) {
        Some(p) => p + 1 < s.len() && (s[p + 1] as u32) < 0x80,
        None => true,
    }
}

/// Field 22 of `/proc/<pid>/stat` (the process start time): the 20th word
/// after the last `)` and the one character that follows it.
pub open spec fn stat_starttime(s: Seq<char>) -> Option<u64> {
    match last_paren(s) {
        Some(p) => {
            let f = ws_fields(s.skip(p + 2));
            if f.len() > 19 {
                parse_u64_spec(f[19])
            } else {
                None
            }
        },
        None => None,
    }
}

/// Reads the start time from the text of a `stat` file.
pub fn parse_starttime(stat: &str) -> (r: Option<u64>)
    requires
        stat_cut_ok(stat@),
    ensures
        r == stat_starttime(stat@),
{
    let s = chars_of(stat);
    let len = s.len();
    let mut k = len;
    assert(s@.take(len as int) =~= s@);
    while k > 0 && s[k - 1] != ')'
        invariant
            k <= len == s@.len(),
            last_paren(s@) == last_paren(s@.take(k as int)),
        decreases k,
    {
        assert(s@.take(k as int).drop_last() =~= s@.take(k - 1));
        k = k - 1;
    }
    if k == 0 {
        assert(s@.take(0) =~= Seq::<char>::empty());
        return None;
    }
    assert(s@.take(k as int).last() == ')');
    let end_paren = k - 1;
    let start = end_paren + 2;
    match nth_field(&s, start, 19) {
        Some((a, b)) => parse_u64_range(&s, a, b),
        None => None,
    }
}


/// Number of white-space characters at the start of `s`.
pub open spec fn lead_ws(s: Seq<char>) -> nat
    decreases s.len(),
{
    if s.len() > 0 && is_ws(s[0]) {
        1 + lead_ws(s.drop_first())
    } else {
        0
    }
}

/// Number of white-space characters at the end of `s`.
pub open spec fn trail_ws(s: Seq<char>) -> nat
    decreases s.len(),
{
    if s.len() > 0 && is_ws(s.last()) {
        1 + trail_ws(s.drop_last())
    } else {
        0
    }
}

/// `s` without leading and trailing white space, as `str::trim` gives it.
pub open spec fn trim_spec(s: Seq<char>) -> Seq<char> {
    if lead_ws(s) >= s.len() {
        Seq::empty()
    } else {
        s.subrange(lead_ws(s) as int, s.len() - trail_ws(s))
    }
}

/// NUL separators of a command line turned into spaces.
pub open spec fn nul_to_space(s: Seq<char>) -> Seq<char> {
    s.map_values(|c: char| if c == '\0' { ' ' } else { c })
}

proof fn lemma_lead_step(s: Seq<char>, i: int)
    requires
        0 <= i < s.len(),
        is_ws(s[i]),
    ensures
        lead_ws(s.skip(i)) == 1 + lead_ws(s.skip(i + 1)),
{
    assert(s.skip(i).drop_first() =~= s.skip(i + 1));
}

proof fn lemma_trail_step(s: Seq<char>, k: int)
    requires
        0 < k <= s.len(),
        is_ws(s[k - 1]),
    ensures
        trail_ws(s.take(k)) == 1 + trail_ws(s.take(k - 1)),
{
    assert(s.take(k).drop_last() =~= s.take(k - 1));
}

/// Bounds of `s` without surrounding white space.
fn trim_bounds(s: &Vec<char>) -> (r: (usize, usize))
    ensures
        r.0 <= r.1 <= s@.len(),
        s@.subrange(r.0 as int, r.1 as int) == trim_spec(s@),
{
    let len = s.len();
    let mut a: usize = 0;
    assert(s@.skip(0) =~= s@);
    while a < len && is_whitespace(s[a])
        invariant
            a <= len == s@.len(),
            lead_ws(s@) == a + lead_ws(s@.skip(a as int)),
        decreases len - a,
    {
        proof {
            lemma_lead_step(s@, a as int);
        }
        a = a + 1;
    }
    proof {
        if a < len {
            assert(s@.skip(a as int)[0] == s@[a as int]);
        }
        assert(lead_ws(s@.skip(a as int)) == 0);
    }
    if a == len {
        return (len, len);
    }
    let mut b = len;
    assert(s@.take(len as int) =~= s@);
    while b > a && is_whitespace(s[b - 1])
        invariant
            a < len == s@.len(),
            a < b <= len,
            !is_ws(s@[a as int]),
            trail_ws(s@) == (len - b) + trail_ws(s@.take(b as int)),
        decreases b,
    {
        proof {
            lemma_trail_step(s@, b as int);
        }
        b = b - 1;
    }
    proof {
        if b > a {
            assert(s@.take(b as int).last() == s@[b - 1]);
        }
        assert(trail_ws(s@.take(b as int)) == 0);
    }
    (a, b)
}

/// The name in `/proc/<pid>/comm`, without surrounding white space.
pub fn normalize_comm(raw: &str) -> (r: String)
    ensures
        r@ == trim_spec(raw@),
{
    let s = chars_of(raw);
    let (a, b) = trim_bounds(&s);
    string_from_chars(&s, a, b)
}

/// The command line in `/proc/<pid>/cmdline`, its NUL separators turned
/// into spaces, without surrounding white space.
pub fn normalize_cmdline(raw: &str) -> (r: String)
    ensures
        r@ == trim_spec(nul_to_space(raw@)),
{
    let s = chars_of(raw);
    let mut t: Vec<char> = Vec::new();
    let n = s.len();
    for i in 0..n
        invariant
            n == s@.len(),
            t@ == nul_to_space(s@).take(i as int),
    {
        let c = s[i];
        t.push(if c == '\0' { ' ' } else { c });
        assert(t@ =~= nul_to_space(s@).take(i + 1));
    }
    assert(t@ =~= nul_to_space(s@));
    let (a, b) = trim_bounds(&t);
    string_from_chars(&t, a, b)
}

/// Parses a decimal `u32` as `str::parse::<u32>` would.
pub fn parse_u32(text: &str) -> (r: Option<u32>)
    ensures
        r == (match parse_u64_spec(text@) {
            Some(v) => if v <= u32::MAX { Some(v as u32) } else { None },
            None => None,
        }),
{
    let s = chars_of(text);
    assert(s@.subrange(0, s@.len() as int) =~= s@);
    match parse_u64_range(&s, 0, s.len()) {
        Some(v) => if v <= 0xFFFF_FFFF {
            Some(v as u32)
        } else {
            None
        },
        None => None,
    }
}

} // verus!
