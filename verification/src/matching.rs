//! Which processes a name search picks.
//!
//! On Linux an exact search compares the short name (`comm`) and a substring
//! search looks into the whole command line, both case-sensitively. On
//! Windows an exact search ignores ASCII case and an optional `.exe`, and a
//! substring search ignores ASCII case.

use vstd::prelude::*;
use crate::model::AddMode;
use crate::targets::{FindResult, TargetError};
use crate::text::chars_of;

verus! {

/// `needle` occurs in `hay` at some position.
pub open spec fn has_sub<T>(hay: Seq<T>, needle: Seq<T>) -> bool {
    exists|i: int| 0 <= i && i + needle.len() <= hay.len() && #[trigger] hay.subrange(i, i + needle.len()) == needle
}

/// ASCII upper-case letters lowered; every other code point as it is.
pub open spec fn ascii_lower(c: char) -> u32 {
    let u = c as u32;
    if 0x41 <= u <= 0x5A {
        (u + 0x20) as u32
    } else {
        u
    }
}

pub open spec fn lower_seq(s: Seq<char>) -> Seq<u32> {
    s.map_values(|c: char| ascii_lower(c))
}

/// Equal up to ASCII case, as `str::eq_ignore_ascii_case`.
pub open spec fn eq_ignore_case(a: Seq<char>, b: Seq<char>) -> bool {
    lower_seq(a) == lower_seq(b)
}

pub open spec fn ends_with_exe(p: Seq<char>, upper: bool) -> bool {
    let n = p.len();
    &&& n >= 4
    &&& p[n - 4] == '.'
    &&& p[n - 3] == (if upper { 'E' } else { 'e' })
    &&& p[n - 2] == (if upper { 'X' } else { 'x' })
    &&& p[n - 1] == (if upper { 'E' } else { 'e' })
}

/// An image name without a trailing `.exe` or `.EXE`.
pub open spec fn image_stem(p: Seq<char>) -> Seq<char> {
    if ends_with_exe(p, false) || ends_with_exe(p, true) {
        p.take(p.len() - 4)
    } else {
        p
    }
}

/// The Linux rule: exact = same short name, substring = inside the command
/// line.
pub open spec fn matches_linux(mode: AddMode, query: Seq<char>, name: Seq<char>, cmdline: Seq<char>) -> bool {
    match mode {
        AddMode::Exact => name == query,
        AddMode::Substring => has_sub(cmdline, query),
        AddMode::Pid => false,
    }
}

/// The Windows rule: exact = same image name up to case, with or without
/// `.exe`; substring = inside a non-empty command line, up to case.
pub open spec fn matches_windows(mode: AddMode, query: Seq<char>, name: Seq<char>, cmdline: Seq<char>) -> bool {
    match mode {
        AddMode::Exact => eq_ignore_case(name, query) || eq_ignore_case(image_stem(name), query),
        AddMode::Substring => cmdline.len() > 0 && has_sub(lower_seq(cmdline), lower_seq(query)),
        AddMode::Pid => false,
    }
}

fn lower_code(c: char) -> (r: u32)
    ensures
        r == ascii_lower(c),
{
    let u = c as u32;
    if 0x41 <= u && u <= 0x5A {
        u + 0x20
    } else {
        u
    }
}

fn lower_codes(s: &Vec<char>) -> (r: Vec<u32>)
    ensures
        r@ == lower_seq(s@),
{
    let mut out: Vec<u32> = Vec::new();
    let n = s.len();
    for i in 0..n
        invariant
            n == s@.len(),
            out@ == lower_seq(s@).take(i as int),
    {
        out.push(lower_code(s[i]));
        assert(out@ =~= lower_seq(s@).take(i + 1));
    }
    assert(out@ =~= lower_seq(s@));
    out
}

/// Whether `hay[at..at + needle.len()]` equals `needle`.
fn chars_at(hay: &Vec<char>, needle: &Vec<char>, at: usize) -> (r: bool)
    requires
        at + needle@.len() <= hay@.len(),
    ensures
        r == (hay@.subrange(at as int, at + needle@.len()) == needle@),
{
    let n = needle.len();
    let hl = hay.len();
    let mut k: usize = 0;
    while k < n
        invariant
            n == needle@.len(),
            hl == hay@.len(),
            at + n <= hay@.len(),
            k <= n,
            forall|j: int| 0 <= j < k ==> hay@[at + j] == needle@[j],
        decreases n - k,
    {
        if hay[at + k] != needle[k] {
            assert(hay@.subrange(at as int, at + n)[k as int] != needle@[k as int]);
            return false;
        }
        k = k + 1;
    }
    assert(hay@.subrange(at as int, at + n) =~= needle@);
    true
}

/// Whether `needle` occurs in `hay`.
pub fn contains_chars(hay: &Vec<char>, needle: &Vec<char>) -> (r: bool)
    ensures
        r == has_sub(hay@, needle@),
{
    let h = hay.len();
    let n = needle.len();
    if n > h {
        return false;
    }
    let last = h - n;
    let mut i: usize = 0;
    loop
        invariant
            h == hay@.len(),
            n == needle@.len(),
            n <= h,
            last == h - n,
            i <= last,
            forall|j: int| 0 <= j < i ==> #[trigger] hay@.subrange(j, j + n) != needle@,
        decreases last - i,
    {
        if chars_at(hay, needle, i) {
            return true;
        }
        if i == last {
            return false;
        }
        i = i + 1;
    }
}

fn codes_at(hay: &Vec<u32>, needle: &Vec<u32>, at: usize) -> (r: bool)
    requires
        at + needle@.len() <= hay@.len(),
    ensures
        r == (hay@.subrange(at as int, at + needle@.len()) == needle@),
{
    let n = needle.len();
    let hl = hay.len();
    let mut k: usize = 0;
    while k < n
        invariant
            n == needle@.len(),
            hl == hay@.len(),
            at + n <= hay@.len(),
            k <= n,
            forall|j: int| 0 <= j < k ==> hay@[at + j] == needle@[j],
        decreases n - k,
    {
        if hay[at + k] != needle[k] {
            assert(hay@.subrange(at as int, at + n)[k as int] != needle@[k as int]);
            return false;
        }
        k = k + 1;
    }
    assert(hay@.subrange(at as int, at + n) =~= needle@);
    true
}

fn contains_codes(hay: &Vec<u32>, needle: &Vec<u32>) -> (r: bool)
    ensures
        r == has_sub(hay@, needle@),
{
    let h = hay.len();
    let n = needle.len();
    if n > h {
        return false;
    }
    let last = h - n;
    let mut i: usize = 0;
    loop
        invariant
            h == hay@.len(),
            n == needle@.len(),
            n <= h,
            last == h - n,
            i <= last,
            forall|j: int| 0 <= j < i ==> #[trigger] hay@.subrange(j, j + n) != needle@,
        decreases last - i,
    {
        if codes_at(hay, needle, i) {
            return true;
        }
        if i == last {
            return false;
        }
        i = i + 1;
    }
}

fn same_chars(a: &Vec<char>, b: &Vec<char>) -> (r: bool)
    ensures
        r == (a@ == b@),
{
    if a.len() != b.len() {
        return false;
    }
    assert(a@.len() == b@.len());
    let r = chars_at(a, b, 0);
    assert(a@.subrange(0, b@.len() as int) =~= a@);
    r
}

fn same_codes(a: &Vec<u32>, b: &Vec<u32>) -> (r: bool)
    ensures
        r == (a@ == b@),
{
    if a.len() != b.len() {
        return false;
    }
    let r = codes_at(a, b, 0);
    assert(a@.subrange(0, b@.len() as int) =~= a@);
    r
}

/// Whether a process with short name `name` and command line `cmdline`
/// answers a Linux search for `query`.
pub fn process_matches(mode: AddMode, query: &str, name: &str, cmdline: &str) -> (r: bool)
    ensures
        r == matches_linux(mode, query@, name@, cmdline@),
{
    let q = chars_of(query);
    match mode {
        AddMode::Exact => {
            let n = chars_of(name);
            same_chars(&n, &q)
        },
        AddMode::Substring => {
            let c = chars_of(cmdline);
            contains_chars(&c, &q)
        },
        AddMode::Pid => false,
    }
}

fn ends_with_exe_at(p: &Vec<char>, upper: bool) -> (r: bool)
    ensures
        r == ends_with_exe(p@, upper),
{
    let n = p.len();
    if n < 4 {
        return false;
    }
    let (e, x) = if upper { ('E', 'X') } else { ('e', 'x') };
    p[n - 4] == '.' && p[n - 3] == e && p[n - 2] == x && p[n - 1] == e
}

/// Whether an image name equals a query up to ASCII case, with or without
/// its `.exe` / `.EXE` suffix.
pub fn names_equal(proc_name: &str, query: &str) -> (r: bool)
    ensures
        r == (eq_ignore_case(proc_name@, query@) || eq_ignore_case(image_stem(proc_name@), query@)),
{
    let p = chars_of(proc_name);
    let q = chars_of(query);
    let pl = lower_codes(&p);
    let ql = lower_codes(&q);
    if same_codes(&pl, &ql) {
        return true;
    }
    let cut = if ends_with_exe_at(&p, false) || ends_with_exe_at(&p, true) {
        p.len() - 4
    } else {
        p.len()
    };
    let mut stem: Vec<char> = Vec::new();
    for i in 0..cut
        invariant
            cut <= p@.len(),
            stem@ == p@.take(i as int),
    {
        stem.push(p[i]);
        assert(stem@ =~= p@.take(i + 1));
    }
    assert(stem@ =~= image_stem(p@));
    let sl = lower_codes(&stem);
    same_codes(&sl, &ql)
}

/// Whether a process answers a Windows search for `query`.
pub fn process_matches_windows(mode: AddMode, query: &str, name: &str, cmdline: &str) -> (r: bool)
    ensures
        r == matches_windows(mode, query@, name@, cmdline@),
{
    match mode {
        AddMode::Exact => names_equal(name, query),
        AddMode::Substring => {
            let c = chars_of(cmdline);
            if c.len() == 0 {
                return false;
            }
            let q = chars_of(query);
            let cl = lower_codes(&c);
            let ql = lower_codes(&q);
            contains_codes(&cl, &ql)
        },
        AddMode::Pid => false,
    }
}


/// One process of a Linux scan: its PID and what reading it gave.
pub type ScanEntry = (u32, Result<(String, String, u64), TargetError>);

/// The readable processes of a Linux scan that answer the search, in scan
/// order.
pub open spec fn scan_matches(entries: Seq<ScanEntry>, mode: AddMode, query: Seq<char>) -> Seq<(u32, String, String, u64)>
    decreases entries.len(),
{
    if entries.len() == 0 {
        Seq::empty()
    } else {
        let prev = scan_matches(entries.drop_last(), mode, query);
        let e = entries.last();
        match e.1 {
            Ok((n, c, st)) => if matches_linux(mode, query, n@, c@) {
                prev.push((e.0, n, c, st))
            } else {
                prev
            },
            Err(_) => prev,
        }
    }
}

/// How many processes of a scan could not be read for lack of permission.
pub open spec fn scan_denied(entries: Seq<ScanEntry>) -> nat
    decreases entries.len(),
{
    if entries.len() == 0 {
        0
    } else {
        scan_denied(entries.drop_last()) + match entries.last().1 {
            Err(TargetError::PermissionDenied(_)) => 1nat,
            _ => 0nat,
        }
    }
}

proof fn lemma_scan_denied_bound(entries: Seq<ScanEntry>)
    ensures
        scan_denied(entries) <= entries.len(),
    decreases entries.len(),
{
    if entries.len() > 0 {
        lemma_scan_denied_bound(entries.drop_last());
    }
}

/// Picks, from a Linux scan of the process table, the processes a search
/// for `name` finds, and counts the ones that could not be read.
pub fn find_matches(name: &str, mode: AddMode, entries: &Vec<ScanEntry>) -> (r: FindResult)
    ensures
        r.matches@ == scan_matches(entries@, mode, name@),
        r.permission_denied_count == scan_denied(entries@),
{
    let mut matches: Vec<(u32, String, String, u64)> = Vec::new();
    let mut denied: usize = 0;
    let n = entries.len();
    for i in 0..n
        invariant
            n == entries@.len(),
            matches@ == scan_matches(entries@.take(i as int), mode, name@),
            denied == scan_denied(entries@.take(i as int)),
    {
        proof {
            let t = entries@.take(i + 1);
            assert(t.drop_last() =~= entries@.take(i as int));
            lemma_scan_denied_bound(t);
        }
        match &entries[i].1 {
            Ok((proc_name, cmdline, starttime)) => {
                if process_matches(mode, name, proc_name.as_str(), cmdline.as_str()) {
                    matches.push((entries[i].0, proc_name.clone(), cmdline.clone(), *starttime));
                }
            },
            Err(TargetError::PermissionDenied(_)) => {
                denied = denied + 1;
            },
            Err(_) => {},
        }
    }
    assert(entries@.take(n as int) =~= entries@);
    FindResult { matches, permission_denied_count: denied }
}

/// The processes of a Windows scan that answer the search, in scan order.
pub open spec fn scan_matches_windows(entries: Seq<(u32, String, String, u64)>, mode: AddMode, query: Seq<char>) -> Seq<(u32, String, String, u64)>
    decreases entries.len(),
{
    if entries.len() == 0 {
        Seq::empty()
    } else {
        let prev = scan_matches_windows(entries.drop_last(), mode, query);
        let e = entries.last();
        if matches_windows(mode, query, e.1@, e.2@) {
            prev.push(e)
        } else {
            prev
        }
    }
}

/// Picks, from a Windows scan of the process table, the processes a search
/// for `name` finds. Every process of such a scan is readable.
pub fn find_matches_windows(name: &str, mode: AddMode, entries: &Vec<(u32, String, String, u64)>) -> (r: FindResult)
    ensures
        r.matches@ == scan_matches_windows(entries@, mode, name@),
        r.permission_denied_count == 0,
{
    let mut matches: Vec<(u32, String, String, u64)> = Vec::new();
    let n = entries.len();
    for i in 0..n
        invariant
            n == entries@.len(),
            matches@ == scan_matches_windows(entries@.take(i as int), mode, name@),
    {
        proof {
            let t = entries@.take(i + 1);
            assert(t.drop_last() =~= entries@.take(i as int));
        }
        let e = &entries[i];
        if process_matches_windows(mode, name, e.1.as_str(), e.2.as_str()) {
            matches.push((e.0, e.1.clone(), e.2.clone(), e.3));
        }
    }
    assert(entries@.take(n as int) =~= entries@);
    FindResult { matches, permission_denied_count: 0 }
}

} // verus!
