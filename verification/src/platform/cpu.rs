//! CPU topology: the Linux `cpulist` format (`"0-3,7,9-11"`) and the NUMA
//! node table built from the per-node lists that sysfs reports.
use vstd::prelude::*;

use vstd::string::StringSliceAdditionalSpecFns;

verus! {

/// Longest range a single `lo-hi` item may span.
pub const MAX_CPUS_PER_LIST: usize = 1048576;

#[derive(Clone, Copy, Debug, PartialEq, Eq, Structural)]
pub enum CpuTopologyError {
    AllocationFailed,
    RangeTooLarge,
}

// ---------------------------------------------------------------------------
// Text model: whitespace, trimming, splitting and integer parsing over the
// UTF-8 bytes of a `&str`.
// ---------------------------------------------------------------------------

/// Length of the Unicode `White_Space` character encoded at `b[i..]`, or 0.
pub open spec fn ws_len_at(b: Seq<u8>, i: int) -> int {
    if 0 <= i < b.len() && ((9 <= b[i] <= 13) || b[i] == 32) {
        1
    } else if 0 <= i && i + 1 < b.len() && b[i] == 0xC2 && (b[i + 1] == 0x85 || b[i + 1] == 0xA0) {
        2
    } else if 0 <= i && i + 2 < b.len() && is_ws3(b[i], b[i + 1], b[i + 2]) {
        3
    } else {
        0
    }
}

/// The three-byte encodings of U+1680, U+2000..=U+200A, U+2028, U+2029,
/// U+202F, U+205F and U+3000.
pub open spec fn is_ws3(a: u8, b: u8, c: u8) -> bool {
    (a == 0xE1 && b == 0x9A && c == 0x80) || (a == 0xE2 && b == 0x80 && (0x80 <= c <= 0x8A || c
        == 0xA8 || c == 0xA9 || c == 0xAF)) || (a == 0xE2 && b == 0x81 && c == 0x9F) || (a == 0xE3
        && b == 0x80 && c == 0x80)
}

/// Length of the whitespace character that ends just before `j`, or 0.
pub open spec fn ws_len_before(b: Seq<u8>, j: int) -> int {
    if 1 <= j <= b.len() && ((9 <= b[j - 1] <= 13) || b[j - 1] == 32) {
        1
    } else if 2 <= j <= b.len() && b[j - 2] == 0xC2 && (b[j - 1] == 0x85 || b[j - 1] == 0xA0) {
        2
    } else if 3 <= j <= b.len() && is_ws3(b[j - 3], b[j - 2], b[j - 1]) {
        3
    } else {
        0
    }
}

/// Index of the first non-whitespace character at or after `i`.
pub open spec fn trim_start_from(b: Seq<u8>, i: int) -> int
    decreases b.len() - i,
{
    if 0 <= i < b.len() && ws_len_at(b, i) > 0 {
        trim_start_from(b, i + ws_len_at(b, i))
    } else {
        i
    }
}

/// End of `b[lo..j]` once trailing whitespace is removed.
pub open spec fn trim_end_from(b: Seq<u8>, lo: int, j: int) -> int
    decreases j,
{
    if lo < j && ws_len_before(b, j) > 0 && j - ws_len_before(b, j) >= lo {
        trim_end_from(b, lo, j - ws_len_before(b, j))
    } else {
        j
    }
}

/// `str::trim`: the bytes without leading and trailing whitespace.
pub open spec fn trimmed(b: Seq<u8>) -> Seq<u8> {
    let s = trim_start_from(b, 0);
    b.subrange(s, trim_end_from(b, s, b.len() as int))
}

/// Index of the first `c` in `b`, if any.
pub open spec fn find_byte(b: Seq<u8>, c: u8) -> Option<int> {
    if exists|k: int| 0 <= k < b.len() && b[k] == c {
        Some(choose|k: int| 0 <= k < b.len() && b[k] == c && forall|m: int| 0 <= m < k ==> b[m] != c)
    } else {
        None
    }
}

/// `str::split(',')`: the pieces between commas (one piece when there is
/// none, an empty piece at either end when the text starts or ends with one).
#[verifier::opaque]
pub open spec fn split_commas(b: Seq<u8>) -> Seq<Seq<u8>>
    decreases b.len(),
{
    match find_byte(b, 44) {
        None => seq![b],
        Some(k) => if 0 <= k < b.len() {
            seq![b.subrange(0, k)] + split_commas(b.subrange(k + 1, b.len() as int))
        } else {
            seq![b]
        },
    }
}

pub open spec fn is_digit(c: u8) -> bool {
    48 <= c <= 57
}

/// Decimal value of a digit string.
pub open spec fn digits_value(d: Seq<u8>) -> nat
    decreases d.len(),
{
    if d.len() == 0 {
        0
    } else {
        digits_value(d.drop_last()) * 10 + (d.last() - 48) as nat
    }
}

/// The text after an optional leading `+`.
pub open spec fn unsigned_digits(b: Seq<u8>) -> Seq<u8> {
    if b.len() > 0 && b[0] == 43 {
        b.drop_first()
    } else {
        b
    }
}

pub open spec fn all_digits(d: Seq<u8>) -> bool {
    forall|i: int| 0 <= i < d.len() ==> is_digit(#[trigger] d[i])
}

/// `usize::from_str`: an optional `+`, then one or more decimal digits
/// whose value fits in `usize`.
pub open spec fn parse_usize(b: Seq<u8>) -> Option<usize> {
    let d = unsigned_digits(b);
    if d.len() > 0 && all_digits(d) && digits_value(d) <= usize::MAX {
        Some(digits_value(d) as usize)
    } else {
        None
    }
}

/// What one comma-separated item contributes: nothing, or the inclusive
/// range `lo..=hi` (a single CPU is `c..=c`); `Err` for a reversed or
/// oversized range. In `lo-hi` an unparsable `lo` reads as 0 and an
/// unparsable `hi` as `lo`; an unparsable single item is skipped.
#[verifier::opaque]
pub open spec fn cpulist_item(raw: Seq<u8>) -> Result<Option<(usize, usize)>, ()> {
    let p = trimmed(raw);
    if p.len() == 0 {
        Ok(None)
    } else {
        match find_byte(p, 45) {
            Some(k) => {
                let lo = match parse_usize(trimmed(p.subrange(0, k))) {
                    Some(v) => v,
                    None => 0,
                };
                let hi = match parse_usize(trimmed(p.subrange(k + 1, p.len() as int))) {
                    Some(v) => v,
                    None => lo,
                };
                if hi < lo || hi - lo >= MAX_CPUS_PER_LIST {
                    Err(())
                } else {
                    Ok(Some((lo, hi)))
                }
            },
            None => match parse_usize(p) {
                Some(c) => Ok(Some((c, c))),
                None => Ok(None),
            },
        }
    }
}

/// The item covers CPU `c`.
pub open spec fn item_covers(item: Result<Option<(usize, usize)>, ()>, c: usize) -> bool {
    match item {
        Ok(Some((lo, hi))) => lo <= c <= hi,
        _ => false,
    }
}

pub open spec fn strictly_increasing(s: Seq<usize>) -> bool {
    forall|i: int, j: int| 0 <= i < j < s.len() ==> s[i] < s[j]
}

// ---------------------------------------------------------------------------
// Executable text helpers
// ---------------------------------------------------------------------------

fn ws_len_at_exec(b: &[u8], i: usize) -> (r: usize)
    ensures
        r == ws_len_at(b@, i as int),
{
    let n = b.len();
    if i < n && ((9 <= b[i] && b[i] <= 13) || b[i] == 32) {
        1
    } else if i < n && n - i > 1 && b[i] == 0xC2 && (b[i + 1] == 0x85 || b[i + 1] == 0xA0) {
        2
    } else if i < n && n - i > 2 && ws3_exec(b[i], b[i + 1], b[i + 2]) {
        3
    } else {
        0
    }
}

fn ws3_exec(a: u8, b: u8, c: u8) -> (r: bool)
    ensures
        r == is_ws3(a, b, c),
{
    (a == 0xE1 && b == 0x9A && c == 0x80) || (a == 0xE2 && b == 0x80 && ((0x80 <= c && c <= 0x8A)
        || c == 0xA8 || c == 0xA9 || c == 0xAF)) || (a == 0xE2 && b == 0x81 && c == 0x9F) || (a
        == 0xE3 && b == 0x80 && c == 0x80)
}

fn ws_len_before_exec(b: &[u8], j: usize) -> (r: usize)
    requires
        j <= b@.len(),
    ensures
        r == ws_len_before(b@, j as int),
{
    if j >= 1 && ((9 <= b[j - 1] && b[j - 1] <= 13) || b[j - 1] == 32) {
        1
    } else if j >= 2 && b[j - 2] == 0xC2 && (b[j - 1] == 0x85 || b[j - 1] == 0xA0) {
        2
    } else if j >= 3 && ws3_exec(b[j - 3], b[j - 2], b[j - 1]) {
        3
    } else {
        0
    }
}

/// Bounds `(start, end)` of the trimmed text.
fn trim_bounds(b: &[u8]) -> (r: (usize, usize))
    ensures
        r.0 <= r.1 <= b@.len(),
        b@.subrange(r.0 as int, r.1 as int) == trimmed(b@),
{
    let n = b.len();
    let mut s: usize = 0;
    while s < n && ws_len_at_exec(b, s) > 0
        invariant
            s <= n,
            n == b@.len(),
            trim_start_from(b@, 0) == trim_start_from(b@, s as int),
        decreases n - s,
    {
        let w = ws_len_at_exec(b, s);
        s = s + w;
    }
    let mut e: usize = n;
    while e > s && ws_len_before_exec(b, e) > 0 && e - ws_len_before_exec(b, e) >= s
        invariant
            s <= e <= n,
            n == b@.len(),
            s == trim_start_from(b@, 0),
            trim_end_from(b@, s as int, n as int) == trim_end_from(b@, s as int, e as int),
        decreases e,
    {
        let w = ws_len_before_exec(b, e);
        e = e - w;
    }
    (s, e)
}

/// `parse_usize` of `b`.
fn parse_usize_exec(b: &[u8]) -> (r: Option<usize>)
    ensures
        r == parse_usize(b@),
{
    let n = b.len();
    let start: usize = if n > 0 && b[0] == 43 {
        1
    } else {
        0
    };
    let ghost d = unsigned_digits(b@);
    assert(d =~= b@.subrange(start as int, n as int));
    if start == n {
        return None;
    }
    let mut value: usize = 0;
    let mut i: usize = start;
    while i < n
        invariant
            start <= i <= n,
            n == b@.len(),
            start < n,
            d == b@.subrange(start as int, n as int),
            d == unsigned_digits(b@),
            forall|k: int| start <= k < i ==> is_digit(#[trigger] b@[k]),
            value == digits_value(d.take(i - start)),
        decreases n - i,
    {
        let c = b[i];
        if c < 48 || c > 57 {
            assert(d[i - start] == c);
            assert(!is_digit(d[i - start]));
            assert(!(forall|j: int| 0 <= j < d.len() ==> is_digit(#[trigger] d[j])));
            return None;
        }
        proof {
            assert(d.take(i - start + 1).drop_last() =~= d.take(i - start));
        }
        let digit = (c - 48) as usize;
        let scaled = match value.checked_mul(10) {
            Some(v) => v,
            None => {
                proof {
                    lemma_digits_prefix_bound(d, i - start + 1);
                }
                return None;
            },
        };
        value = match scaled.checked_add(digit) {
            Some(v) => v,
            None => {
                proof {
                    lemma_digits_prefix_bound(d, i - start + 1);
                }
                return None;
            },
        };
        i = i + 1;
    }
    assert(d.take(n - start) =~= d);
    Some(value)
}

/// A digit string is worth at least any of its prefixes.
proof fn lemma_digits_prefix_bound(d: Seq<u8>, n: int)
    requires
        0 <= n <= d.len(),
    ensures
        digits_value(d.take(n)) <= digits_value(d),
    decreases d.len() - n,
{
    if n < d.len() {
        lemma_digits_prefix_bound(d, n + 1);
        assert(d.take(n + 1).drop_last() =~= d.take(n));
    } else {
        assert(d.take(n) =~= d);
    }
}

/// Index of the first `c` in `b`.
fn find_byte_exec(b: &[u8], c: u8) -> (r: Option<usize>)
    ensures
        r matches Some(k) ==> k < b@.len() && find_byte(b@, c) == Some(k as int),
        r is None ==> find_byte(b@, c) is None,
{
    let mut k: usize = 0;
    while k < b.len()
        invariant
            k <= b@.len(),
            forall|m: int| 0 <= m < k ==> b@[m] != c,
        decreases b.len() - k,
    {
        if b[k] == c {
            proof {
                let w = choose|j: int| 0 <= j < b@.len() && b@[j] == c && forall|m: int| 0 <= m < j ==> b@[m] != c;
                assert(0 <= k < b@.len() && b@[k as int] == c && forall|m: int| 0 <= m < k ==> b@[m] != c);
                assert(w == k) by {
                    if w < k {
                        assert(b@[w] != c);
                    }
                    if w > k {
                        assert(b@[k as int] != c);
                    }
                }
            }
            return Some(k);
        }
        k = k + 1;
    }
    None
}

/// The trimmed text, as a sub-slice.
fn trim_slice(b: &[u8]) -> (r: &[u8])
    ensures
        r@ == trimmed(b@),
{
    let (s, e) = trim_bounds(b);
    let (_, rest) = b.split_at(s);
    let (p, _) = rest.split_at(e - s);
    assert(p@ =~= b@.subrange(s as int, e as int));
    p
}

/// The value of a `lo-hi` item whose dash is at `k` in the trimmed text `p`.
fn parse_range_item(p: &[u8], k: usize) -> (r: Result<Option<(usize, usize)>, ()>)
    requires
        k < p@.len(),
    ensures
        r == ({
            let lo = match parse_usize(trimmed(p@.subrange(0, k as int))) {
                Some(v) => v,
                None => 0,
            };
            let hi = match parse_usize(trimmed(p@.subrange(k + 1, p@.len() as int))) {
                Some(v) => v,
                None => lo,
            };
            if hi < lo || hi - lo >= MAX_CPUS_PER_LIST {
                Err::<Option<(usize, usize)>, ()>(())
            } else {
                Ok(Some((lo, hi)))
            }
        }),
{
    let (left, right_with_dash) = p.split_at(k);
    let (_, right) = right_with_dash.split_at(1);
    assert(right@ =~= p@.subrange(k + 1, p@.len() as int));
    assert(left@ =~= p@.subrange(0, k as int));
    let lo = match parse_usize_exec(trim_slice(left)) {
        Some(v) => v,
        None => 0,
    };
    let hi = match parse_usize_exec(trim_slice(right)) {
        Some(v) => v,
        None => lo,
    };
    if hi < lo || hi - lo >= MAX_CPUS_PER_LIST {
        Err(())
    } else {
        Ok(Some((lo, hi)))
    }
}

/// The item at `b[..]` (one comma-separated piece).
fn parse_item(b: &[u8]) -> (r: Result<Option<(usize, usize)>, ()>)
    ensures
        r == cpulist_item(b@),
        r matches Ok(Some((lo, hi))) ==> lo <= hi && hi - lo < MAX_CPUS_PER_LIST,
{
    reveal(cpulist_item);
    let p = trim_slice(b);
    if p.len() == 0 {
        return Ok(None);
    }
    match find_byte_exec(p, 45) {
        Some(k) => parse_range_item(p, k),
        None => match parse_usize_exec(p) {
            Some(c) => Ok(Some((c, c))),
            None => Ok(None),
        },
    }
}

// ---------------------------------------------------------------------------
// CPU lists
// ---------------------------------------------------------------------------

/// Every item of the list is well formed.
pub open spec fn all_items_ok(parts: Seq<Seq<u8>>) -> bool {
    forall|k: int| 0 <= k < parts.len() ==> (#[trigger] cpulist_item(parts[k])) is Ok
}

/// Some item of the list covers CPU `c`.
pub open spec fn listed(parts: Seq<Seq<u8>>, c: usize) -> bool {
    exists|k: int| 0 <= k < parts.len() && item_covers(#[trigger] cpulist_item(parts[k]), c)
}

/// Sorts ascending by insertion; a permutation of the input.
fn sort_ascending(v: &mut Vec<usize>)
    ensures
        final(v)@.len() == old(v)@.len(),
        final(v)@.to_multiset() == old(v)@.to_multiset(),
        forall|a: int, b: int| 0 <= a < b < final(v)@.len() ==> final(v)@[a] <= final(v)@[b],
{
    let n = v.len();
    if n == 0 {
        return;
    }
    let mut i: usize = 1;
    while i < n
        invariant
            1 <= i <= n,
            v@.len() == n,
            v@.to_multiset() == old(v)@.to_multiset(),
            forall|a: int, b: int| 0 <= a < b < i ==> v@[a] <= v@[b],
        decreases n - i,
    {
        let mut j: usize = i;
        while j > 0 && v[j] < v[j - 1]
            invariant
                0 <= j <= i < n,
                v@.len() == n,
                v@.to_multiset() == old(v)@.to_multiset(),
                forall|a: int, b: int| 0 <= a < b < j ==> v@[a] <= v@[b],
                forall|a: int, b: int| j <= a < b <= i ==> v@[a] <= v@[b],
                forall|a: int, b: int| 0 <= a < j && j < b <= i ==> v@[a] <= v@[b],
            decreases j,
        {
            let lower = v[j - 1];
            let upper = v[j];
            proof {
                crate::permutation::lemma_swap_preserves_multiset(v@, j - 1, j as int);
            }
            v.set(j - 1, upper);
            v.set(j, lower);
            j = j - 1;
        }
        i = i + 1;
    }
}

/// Pushing `x` adds exactly `x` to the elements.
proof fn lemma_push_contains(s: Seq<usize>, x: usize, c: usize)
    ensures
        s.push(x).contains(c) <==> (s.contains(c) || c == x),
{
    if s.push(x).contains(c) {
        let k = choose|k: int| 0 <= k < s.push(x).len() && s.push(x)[k] == c;
        if k < s.len() {
            assert(s[k] == c);
        }
    }
    if s.contains(c) {
        let k = choose|k: int| 0 <= k < s.len() && s[k] == c;
        assert(s.push(x)[k] == c);
    }
    if c == x {
        assert(s.push(x)[s.len() as int] == c);
    }
}

/// The distinct values of a sorted sequence, in order.
fn dedup_sorted(v: &Vec<usize>) -> (r: Vec<usize>)
    requires
        forall|a: int, b: int| 0 <= a < b < v@.len() ==> v@[a] <= v@[b],
    ensures
        strictly_increasing(r@),
        forall|c: usize| r@.contains(c) <==> v@.contains(c),
{
    let mut out: Vec<usize> = Vec::new();
    let mut i: usize = 0;
    while i < v.len()
        invariant
            i <= v@.len(),
            forall|a: int, b: int| 0 <= a < b < v@.len() ==> v@[a] <= v@[b],
            strictly_increasing(out@),
            i > 0 ==> out@.len() > 0 && out@.last() == v@[i - 1],
            i == 0 ==> out@.len() == 0,
            forall|c: usize| out@.contains(c) <==> exists|k: int| 0 <= k < i && #[trigger] v@[k] == c,
        decreases v.len() - i,
    {
        let x = v[i];
        let ghost before = out@;
        if out.len() == 0 || out[out.len() - 1] != x {
            out.push(x);
            proof {
                assert forall|c: usize| out@.contains(c) <==> exists|k: int| 0 <= k < i + 1 && #[trigger] v@[k] == c by {
                    lemma_push_contains(before, x, c);
                    if c == x {
                        assert(v@[i as int] == c);
                    }
                }
            }
        } else {
            proof {
                assert forall|c: usize| out@.contains(c) <==> exists|k: int| 0 <= k < i + 1 && #[trigger] v@[k] == c by {
                    if c == x {
                        assert(out@[out@.len() - 1] == c);
                    }
                }
            }
        }
        i = i + 1;
    }
    proof {
        assert forall|c: usize| out@.contains(c) <==> v@.contains(c) by {
            if v@.contains(c) {
                let k = choose|k: int| 0 <= k < v@.len() && v@[k] == c;
                assert(v@[k] == c);
            }
        }
    }
    out
}

/// Appends `lo..=hi`; with `fallible` the growth is reserved first, and a
/// failed reservation (`false`) leaves `out` unchanged.
fn append_range(out: &mut Vec<usize>, lo: usize, hi: usize, fallible: bool) -> (r: bool)
    requires
        lo <= hi,
        hi - lo < MAX_CPUS_PER_LIST,
    ensures
        r ==> forall|c: usize| final(out)@.contains(c) <==> (old(out)@.contains(c) || lo <= c <= hi),
        !r ==> fallible && final(out)@ == old(out)@,
{
    let count = hi - lo + 1;
    if fallible && out.try_reserve(count).is_err() {
        return false;
    }
    let mut j: usize = 0;
    while j < count
        invariant
            j <= count,
            count == hi - lo + 1,
            lo <= hi,
            forall|c: usize| out@.contains(c) <==> (old(out)@.contains(c) || (lo <= c < lo + j)),
        decreases count - j,
    {
        let ghost prev = out@;
        out.push(lo + j);
        proof {
            assert forall|c: usize| out@.contains(c) <==> (old(out)@.contains(c) || (lo <= c < lo + j + 1)) by {
                lemma_push_contains(prev, (lo + j) as usize, c);
            }
        }
        j = j + 1;
    }
    true
}

/// One step of splitting: the pieces of the text from `start` are the piece
/// up to the next comma, then the pieces after it.
proof fn lemma_split_step(b: Seq<u8>, start: int, k: Option<int>)
    requires
        0 <= start <= b.len(),
        k matches Some(k) ==> 0 <= k < b.len() - start && find_byte(b.subrange(start, b.len() as int), 44) == Some(k),
        k is None ==> find_byte(b.subrange(start, b.len() as int), 44) is None,
    ensures
        k matches Some(k) ==> split_commas(b.subrange(start, b.len() as int)) == seq![b.subrange(start, start + k)] + split_commas(b.subrange(start + k + 1, b.len() as int)),
        k is None ==> split_commas(b.subrange(start, b.len() as int)) == seq![b.subrange(start, b.len() as int)],
{
    reveal(split_commas);
    let rest = b.subrange(start, b.len() as int);
    if let Some(k) = k {
        assert(rest.subrange(0, k) =~= b.subrange(start, start + k));
        assert(rest.subrange(k + 1, rest.len() as int) =~= b.subrange(start + k + 1, b.len() as int));
    }
}

/// Expands the list; with `fallible` each growth is reserved first and a
/// failed reservation is reported, without it growth cannot fail.
fn expand_items(bytes: &[u8], fallible: bool) -> (r: Result<Vec<usize>, CpuTopologyError>)
    ensures
        r matches Ok(v) ==> all_items_ok(split_commas(bytes@)) && strictly_increasing(v@)
            && forall|c: usize| v@.contains(c) <==> listed(split_commas(bytes@), c),
        !all_items_ok(split_commas(bytes@)) ==> r is Err,
        r matches Err(e) ==> (fallible && e == CpuTopologyError::AllocationFailed) || (e
            == CpuTopologyError::RangeTooLarge && !all_items_ok(split_commas(bytes@))),
{
    let n = bytes.len();
    let ghost whole = split_commas(bytes@);
    let mut out: Vec<usize> = Vec::new();
    let mut start: usize = 0;
    let mut finished = false;
    let ghost mut done: Seq<Seq<u8>> = Seq::empty();
    assert(bytes@.subrange(0, n as int) =~= bytes@);
    assert(done + split_commas(bytes@) =~= split_commas(bytes@));
    while !finished
        invariant
            start <= n,
            n == bytes@.len(),
            whole == split_commas(bytes@),
            finished ==> done == whole,
            !finished ==> whole == done + split_commas(bytes@.subrange(start as int, n as int)),
            all_items_ok(done),
            forall|c: usize| out@.contains(c) <==> listed(done, c),
        decreases n - start + if finished {
            0int
        } else {
            1int
        },
    {
        let (_, rest) = bytes.split_at(start);
        assert(rest@ =~= bytes@.subrange(start as int, n as int));
        let found = find_byte_exec(rest, 44);
        let (part, next, last) = match found {
            Some(k) => {
                let (p, _) = rest.split_at(k);
                (p, start + k + 1, false)
            },
            None => (rest, n, true),
        };
        proof {
            match found {
                Some(k) => {
                    lemma_split_step(bytes@, start as int, Some(k as int));
                    assert(part@ =~= bytes@.subrange(start as int, start + k));
                },
                None => {
                    lemma_split_step(bytes@, start as int, None);
                },
            }
        }
        let ghost done_next = done.push(part@);
        proof {
            if last {
                assert(whole =~= done_next);
            } else {
                assert(whole =~= done_next + split_commas(bytes@.subrange(next as int, n as int)));
            }
            assert(whole[done.len() as int] == part@);
        }
        match parse_item(part) {
            Err(()) => {
                proof {
                    assert(!(cpulist_item(whole[done.len() as int]) is Ok));
                }
                return Err(CpuTopologyError::RangeTooLarge);
            },
            Ok(None) => {},
            Ok(Some((lo, hi))) => {
                if !append_range(&mut out, lo, hi, fallible) {
                    return Err(CpuTopologyError::AllocationFailed);
                }
            },
        }
        proof {
            lemma_all_ok_push(done, part@);
            assert forall|c: usize| out@.contains(c) <==> listed(done_next, c) by {
                lemma_listed_push(done, part@, c);
            }
            done = done_next;
        }
        if last {
            finished = true;
        } else {
            start = next;
        }
    }
    Ok(sorted_distinct(out))
}

/// The distinct elements of `v`, ascending.
fn sorted_distinct(v: Vec<usize>) -> (r: Vec<usize>)
    ensures
        strictly_increasing(r@),
        forall|c: usize| r@.contains(c) <==> v@.contains(c),
{
    let mut out = v;
    sort_ascending(&mut out);
    proof {
        assert forall|c: usize| out@.contains(c) <==> v@.contains(c) by {
            crate::permutation::lemma_same_multiset_same_elements(out@, v@, c);
        }
    }
    dedup_sorted(&out)
}

proof fn lemma_all_ok_push(done: Seq<Seq<u8>>, part: Seq<u8>)
    requires
        all_items_ok(done),
        cpulist_item(part) is Ok,
    ensures
        all_items_ok(done.push(part)),
{
    assert forall|k: int| 0 <= k < done.push(part).len() implies (#[trigger] cpulist_item(
        done.push(part)[k],
    )) is Ok by {
        if k < done.len() {
            assert(done.push(part)[k] == done[k]);
        }
    }
}

proof fn lemma_listed_push(done: Seq<Seq<u8>>, part: Seq<u8>, c: usize)
    ensures
        listed(done.push(part), c) <==> (listed(done, c) || item_covers(cpulist_item(part), c)),
{
    let d = done.push(part);
    if listed(done, c) {
        let k = choose|k: int| 0 <= k < done.len() && item_covers(#[trigger] cpulist_item(done[k]), c);
        assert(d[k] == done[k]);
    }
    if listed(d, c) {
        let k = choose|k: int| 0 <= k < d.len() && item_covers(#[trigger] cpulist_item(d[k]), c);
        if k < done.len() {
            assert(d[k] == done[k]);
        }
    }
    if item_covers(cpulist_item(part), c) {
        assert(d[done.len() as int] == part);
    }
}

/// Parses a Linux `cpulist` string (`"0-3,7,9-11"`) into the sorted,
/// duplicate-free list of the CPUs it names. Items are separated by
/// commas and may be surrounded by whitespace; empty items are skipped.
pub fn try_expand_cpulist(spec: &str) -> (r: Result<Vec<usize>, CpuTopologyError>)
    ensures
        r matches Ok(v) ==> all_items_ok(split_commas(spec.spec_bytes())) && strictly_increasing(
            v@,
        ) && forall|c: usize| v@.contains(c) <==> listed(split_commas(spec.spec_bytes()), c),
        !all_items_ok(split_commas(spec.spec_bytes())) ==> r is Err,
        r matches Err(e) ==> e == CpuTopologyError::AllocationFailed || (e
            == CpuTopologyError::RangeTooLarge && !all_items_ok(split_commas(spec.spec_bytes()))),
{
    expand_items(spec.as_bytes(), true)
}

/// `try_expand_cpulist` for a list known to be well formed.
pub fn expand_cpulist(spec: &str) -> (r: Vec<usize>)
    requires
        all_items_ok(split_commas(spec.spec_bytes())),
    ensures
        strictly_increasing(r@),
        forall|c: usize| r@.contains(c) <==> listed(split_commas(spec.spec_bytes()), c),
{
    match expand_items(spec.as_bytes(), false) {
        Ok(v) => v,
        Err(_) => Vec::new(),
    }
}

// ---------------------------------------------------------------------------
// NUMA topology
// ---------------------------------------------------------------------------

/// The node id named by a sysfs entry `node<id>`, if it is one.
pub open spec fn node_id(name: Seq<u8>) -> Option<usize> {
    if name.len() >= 4 && name[0] == 110 && name[1] == 111 && name[2] == 100 && name[3] == 101 {
        parse_usize(name.subrange(4, name.len() as int))
    } else {
        None
    }
}

/// `list` is what the node's `cpulist` text yields: its CPUs, ascending
/// and distinct, or nothing when the text is malformed (or could not be
/// expanded).
pub open spec fn node_cpus_from(list: Seq<usize>, text: Seq<u8>) -> bool {
    ||| list.len() == 0
    ||| all_items_ok(split_commas(text)) && strictly_increasing(list) && forall|c: usize|
        list.contains(c) <==> listed(split_commas(text), c)
}

/// Entry `i` is the last one naming node `id`.
pub open spec fn last_entry_for(entries: Seq<(Seq<u8>, Seq<u8>)>, id: usize, i: int) -> bool {
    &&& 0 <= i < entries.len()
    &&& node_id(entries[i].0) == Some(id)
    &&& forall|j: int| i < j < entries.len() ==> node_id(#[trigger] entries[j].0) != Some(id)
}

/// NUMA node id to the CPUs it owns. Node ids without an entry have no
/// list.
pub struct NumaTopology {
    nodes: Vec<Option<Vec<usize>>>,
}

impl View for NumaTopology {
    type V = Seq<Option<Seq<usize>>>;

    closed spec fn view(&self) -> Seq<Option<Seq<usize>>> {
        self.nodes@.map_values(|n: Option<Vec<usize>>| match n {
            Some(v) => Some(v@),
            None => None,
        })
    }
}

impl NumaTopology {
    /// A topology with the given per-node CPU lists (`None` for a node
    /// number with no node).
    pub fn from_nodes(nodes: Vec<Option<Vec<usize>>>) -> (r: Self)
        ensures
            r@.len() == nodes@.len(),
            forall|i: int| 0 <= i < nodes@.len() ==> #[trigger] r@[i] == match nodes@[i] {
                Some(v) => Some(v@),
                None => None,
            },
    {
        NumaTopology { nodes }
    }

    /// The topology sysfs describes: `entries` holds, for each directory
    /// entry of the node directory, its name and the text of its `cpulist`
    /// file (empty when unreadable). Entries not named `node<id>` are
    /// ignored; a later entry for the same id replaces an earlier one.
    /// With no node entry at all, the topology is a single node owning
    /// CPU 0.
    pub fn from_sysfs_entries(entries: &[(Vec<u8>, Vec<u8>)]) -> (r: Self)
        requires
            forall|i: int| 0 <= i < entries@.len() ==> node_id((#[trigger] entries@[i]).0@) != Some(usize::MAX),
        ensures
            forall|id: int| 0 <= id < r@.len() ==> (#[trigger] r@[id] matches Some(list) ==> strictly_increasing(list)),
            (forall|i: int| 0 <= i < entries@.len() ==> node_id((#[trigger] entries@[i]).0@) is None)
                ==> r@ == seq![Some(seq![0usize])],
            (exists|i: int| 0 <= i < entries@.len() && node_id((#[trigger] entries@[i]).0@) is Some)
                ==> {
                &&& forall|i: int| 0 <= i < entries@.len() ==> (node_id((#[trigger] entries@[i]).0@) matches Some(id) ==> id < r@.len() && r@[id as int] is Some)
                &&& exists|i: int| 0 <= i < entries@.len() && node_id((#[trigger] entries@[i]).0@) == Some((r@.len() - 1) as usize)
                &&& forall|id: int| 0 <= id < r@.len() ==> match #[trigger] r@[id] {
                    None => forall|i: int| 0 <= i < entries@.len() ==> node_id((#[trigger] entries@[i]).0@) != Some(id as usize),
                    Some(list) => exists|i: int| 0 <= i < entries@.len() && last_entry_for(entries@.map_values(|e: (Vec<u8>, Vec<u8>)| (e.0@, e.1@)), id as usize, i) && node_cpus_from(list, #[trigger] entries@[i].1@),
                }
            },
    {
        let ghost flat = entries@.map_values(|e: (Vec<u8>, Vec<u8>)| (e.0@, e.1@));
        let mut nodes: Vec<Option<Vec<usize>>> = Vec::new();
        let ghost mut last: Seq<int> = Seq::empty();
        let ghost mut top: int = -1;
        let mut found_any = false;
        let mut i: usize = 0;
        while i < entries.len()
            invariant
                i <= entries@.len(),
                flat == entries@.map_values(|e: (Vec<u8>, Vec<u8>)| (e.0@, e.1@)),
                forall|k: int| 0 <= k < entries@.len() ==> node_id((#[trigger] entries@[k]).0@) != Some(usize::MAX),
                last.len() == nodes@.len(),
                found_any <==> exists|k: int| 0 <= k < i && node_id((#[trigger] entries@[k]).0@) is Some,
                !found_any ==> nodes@.len() == 0,
                found_any ==> 0 <= top < i && node_id(entries@[top].0@) == Some((nodes@.len() - 1) as usize),
                forall|k: int| 0 <= k < i ==> (node_id((#[trigger] entries@[k]).0@) matches Some(id) ==> id < nodes@.len() && last[id as int] >= k),
                forall|id: int| 0 <= id < nodes@.len() ==> (#[trigger] last[id] == -1 <==> nodes@[id] is None),
                forall|id: int| 0 <= id < nodes@.len() && #[trigger] last[id] != -1 ==> {
                    &&& 0 <= last[id] < i
                    &&& node_id(entries@[last[id]].0@) == Some(id as usize)
                    &&& nodes@[id] matches Some(list) && node_cpus_from(list@, entries@[last[id]].1@)
                },
            decreases entries.len() - i,
        {
            let name = entries[i].0.as_slice();
            let text = entries[i].1.as_slice();
            let parsed = sysfs_node_id(name);
            if let Some(id) = parsed {
                assert(node_id(entries@[i as int].0@) == Some(id));
                let ghost before = nodes@;
                let ghost last_before = last;
                while nodes.len() <= id
                    invariant
                        before.len() <= nodes@.len(),
                        nodes@.len() <= id + 1 || nodes@.len() == before.len(),
                        id < usize::MAX,
                        last.len() == nodes@.len(),
                        forall|k: int| 0 <= k < before.len() ==> nodes@[k] == before[k] && last[k] == last_before[k],
                        forall|k: int| before.len() <= k < nodes@.len() ==> (#[trigger] nodes@[k]) is None,
                        forall|k: int| before.len() <= k < nodes@.len() ==> #[trigger] last[k] == -1,
                    decreases id + 1 - nodes.len(),
                {
                    let ghost prev_nodes = nodes@;
                    let ghost prev_last = last;
                    nodes.push(None);
                    proof {
                        last = last.push(-1);
                        assert(nodes@ == prev_nodes.push(None));
                        assert(last == prev_last.push(-1));
                        assert forall|k: int| before.len() <= k < nodes@.len() implies (#[trigger] nodes@[k]) is None by {
                            if k < prev_nodes.len() {
                                assert(nodes@[k] == prev_nodes[k]);
                            }
                        }
                        assert forall|k: int| before.len() <= k < nodes@.len() implies #[trigger] last[k] == -1 by {
                            if k < prev_nodes.len() {
                                assert(last[k] == prev_last[k]);
                            }
                        }
                    }
                }
                let list = match expand_items(text, true) {
                    Ok(v) => v,
                    Err(_) => Vec::new(),
                };
                assert(node_cpus_from(list@, entries@[i as int].1@));
                nodes.set(id, Some(list));
                proof {
                    last = last.update(id as int, i as int);
                    if !found_any || id + 1 > before.len() {
                        top = i as int;
                    }
                }
                found_any = true;
            }
            i = i + 1;
        }
        if !found_any {
            let mut only: Vec<usize> = Vec::new();
            only.push(0);
            let mut fallback: Vec<Option<Vec<usize>>> = Vec::new();
            fallback.push(Some(only));
            let r = NumaTopology { nodes: fallback };
            assert(r@ =~= seq![Some(seq![0usize])]);
            return r;
        }
        let count = nodes.len();
        let r = NumaTopology { nodes };
        proof {
            assert(r@.len() == count);
            assert forall|id: int| 0 <= id < r@.len() implies match #[trigger] r@[id] {
                None => forall|k: int| 0 <= k < entries@.len() ==> node_id((#[trigger] entries@[k]).0@) != Some(id as usize),
                Some(list) => exists|k: int| 0 <= k < entries@.len() && last_entry_for(flat, id as usize, k) && node_cpus_from(list, #[trigger] entries@[k].1@),
            } by {
                assert((id as usize) as int == id);
                if last[id] == -1 {
                    assert forall|k: int| 0 <= k < entries@.len() implies node_id((#[trigger] entries@[k]).0@) != Some(id as usize) by {
                        if node_id(entries@[k].0@) == Some(id as usize) {
                            assert(last[(id as usize) as int] >= k);
                        }
                    }
                } else {
                    let k = last[id];
                    assert(flat[k] == (entries@[k].0@, entries@[k].1@));
                    assert forall|j: int| k < j < flat.len() implies node_id(#[trigger] flat[j].0) != Some(id as usize) by {
                        assert(flat[j] == (entries@[j].0@, entries@[j].1@));
                        if node_id(entries@[j].0@) == Some(id as usize) {
                            assert(last[(id as usize) as int] >= j);
                        }
                    }
                    assert(last_entry_for(flat, id as usize, k));
                }
            }
            assert forall|k: int| 0 <= k < entries@.len() implies (node_id((#[trigger] entries@[k]).0@) matches Some(id) ==> id < r@.len() && r@[id as int] is Some) by {
                if let Some(id) = node_id(entries@[k].0@) {
                    assert(last[id as int] >= k);
                }
            }
            assert(node_id(entries@[top].0@) == Some((r@.len() - 1) as usize));
        }
        r
    }

    pub fn node_count(&self) -> (r: usize)
        ensures
            r == self@.len(),
    {
        self.nodes.len()
    }

    /// The CPUs of `node`, if it exists.
    pub fn cpus_of(&self, node: usize) -> (r: Option<&[usize]>)
        ensures
            node < self@.len() && self@[node as int] is Some ==> (r matches Some(s) && Some(s@) == self@[node as int]),
            !(node < self@.len() && self@[node as int] is Some) ==> r is None,
    {
        if node < self.nodes.len() {
            match &self.nodes[node] {
                Some(cpus) => Some(cpus.as_slice()),
                None => None,
            }
        } else {
            None
        }
    }

    /// The first node whose list contains `cpu`.
    pub fn node_for_cpu(&self, cpu: usize) -> (r: Option<usize>)
        ensures
            r matches Some(n) ==> n < self@.len() && owns(self@[n as int], cpu) && forall|m: int| 0 <= m < n ==> !owns(#[trigger] self@[m], cpu),
            r is None ==> forall|m: int| 0 <= m < self@.len() ==> !owns(#[trigger] self@[m], cpu),
    {
        let mut n: usize = 0;
        while n < self.nodes.len()
            invariant
                n <= self@.len(),
                self@.len() == self.nodes@.len(),
                forall|m: int| 0 <= m < n ==> !owns(#[trigger] self@[m], cpu),
            decreases self.nodes.len() - n,
        {
            let found = match &self.nodes[n] {
                Some(cpus) => {
                    assert(self@[n as int] == Some(cpus@));
                    list_contains(cpus.as_slice(), cpu)
                },
                None => {
                    assert(self@[n as int] is None);
                    false
                },
            };
            if found {
                return Some(n);
            }
            n = n + 1;
        }
        None
    }
}

fn list_contains(list: &[usize], cpu: usize) -> (r: bool)
    ensures
        r == list@.contains(cpu),
{
    let mut k: usize = 0;
    while k < list.len()
        invariant
            k <= list@.len(),
            forall|j: int| 0 <= j < k ==> list@[j] != cpu,
        decreases list.len() - k,
    {
        if list[k] == cpu {
            assert(list@[k as int] == cpu);
            return true;
        }
        k = k + 1;
    }
    false
}

/// Node `n`'s list contains `cpu`.
pub open spec fn owns(node: Option<Seq<usize>>, cpu: usize) -> bool {
    match node {
        Some(list) => list.contains(cpu),
        None => false,
    }
}

/// The id of a `node<id>` entry name.
fn sysfs_node_id(name: &[u8]) -> (r: Option<usize>)
    ensures
        r == node_id(name@),
{
    if name.len() >= 4 && name[0] == 110 && name[1] == 111 && name[2] == 100 && name[3] == 101 {
        let (_, digits) = name.split_at(4);
        assert(digits@ =~= name@.subrange(4, name@.len() as int));
        parse_usize_exec(digits)
    } else {
        None
    }
}

} // verus!
