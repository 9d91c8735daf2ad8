//! Version directory names.  A version is stored on disk in a directory
//! named `<N>__<id>`: a decimal version number, the two-character delimiter,
//! and the caller-supplied id.  This module parses and composes such names
//! and decides whether a set of version numbers forms a contiguous run.

use vstd::prelude::*;
use vstd::multiset::Multiset;
use vstd::relations::{sorted_by, total_ordering};
use vstd::seq_lib::lemma_sorted_unique;

use crate::StorageError;

verus! {

/// The delimiter byte: the name holds two of them in a row.
pub open spec fn delim_byte() -> u8 {
    95
}

/// Whether `b` is a decimal digit.
pub open spec fn is_digit(b: u8) -> bool {
    48 <= b <= 57
}

/// Whether `s` is one or more decimal digits.
pub open spec fn is_digits(s: Seq<u8>) -> bool {
    s.len() > 0 && forall|i: int| 0 <= i < s.len() ==> is_digit(#[trigger] s[i])
}

/// The number the digit string `s` denotes.
pub open spec fn digits_val(s: Seq<u8>) -> nat
    decreases s.len(),
{
    if s.len() == 0 {
        0
    } else {
        digits_val(s.drop_last()) * 10 + ((s.last() - 48) as nat)
    }
}

/// The number parsed from `s`: defined when `s` is all digits and the value
/// fits in 64 bits.
pub open spec fn spec_parse_u64(s: Seq<u8>) -> Option<u64> {
    if is_digits(s) && digits_val(s) <= u64::MAX {
        Some(digits_val(s) as u64)
    } else {
        None
    }
}

/// The position of the first double-delimiter at or after `from`.
pub open spec fn spec_find_delim(s: Seq<u8>, from: int) -> Option<int>
    decreases s.len() - from,
{
    if from < 0 || from + 1 >= s.len() {
        None
    } else if s[from] == delim_byte() && s[from + 1] == delim_byte() {
        Some(from)
    } else {
        spec_find_delim(s, from + 1)
    }
}

/// The version number and id a directory name denotes: the part before the
/// first double-delimiter read as a decimal number, the part after it taken
/// as the id.  A name without the delimiter, or whose left part is not a
/// number that fits, denotes nothing.
pub open spec fn spec_parse_version_name(s: Seq<u8>) -> Option<(u64, Seq<u8>)> {
    match spec_find_delim(s, 0) {
        Option::None => Option::None,
        Option::Some(i) => match spec_parse_u64(s.subrange(0, i)) {
            Option::None => Option::None,
            Option::Some(n) => Option::Some((n, s.subrange(i + 2, s.len() as int))),
        },
    }
}

/// The canonical decimal digits of `n`, most significant first.
pub open spec fn digits_of(n: nat) -> Seq<u8>
    decreases n,
{
    if n < 10 {
        seq![(48 + n) as u8]
    } else {
        digits_of(n / 10).push((48 + n % 10) as u8)
    }
}

/// The directory name for version number `n` with id `id`.
pub open spec fn spec_compose_version_name(n: u64, id: Seq<u8>) -> Seq<u8> {
    digits_of(n as nat) + seq![delim_byte(), delim_byte()] + id
}

/// The canonical digits of `n` denote `n`, are all digits, and hold no
/// delimiter byte.
pub proof fn lemma_digits_of(n: nat)
    ensures
        is_digits(digits_of(n)),
        digits_val(digits_of(n)) == n,
        digits_of(n).len() > 0,
    decreases n,
{
    if n < 10 {
        let s = digits_of(n);
        assert(s.drop_last() =~= Seq::<u8>::empty());
        assert(digits_val(Seq::<u8>::empty()) == 0);
        assert(s.last() == (48 + n) as u8);
    } else {
        lemma_digits_of(n / 10);
        let s = digits_of(n);
        assert(s.drop_last() =~= digits_of(n / 10));
        assert(digits_val(s) == (n / 10) * 10 + n % 10);
        assert((n / 10) * 10 + n % 10 == n) by (nonlinear_arith);
    }
}

/// In a string whose first `k` bytes are digits and whose next two bytes
/// are delimiters, the first double-delimiter sits exactly at `k`.
proof fn lemma_find_delim_after_digits(s: Seq<u8>, k: int, from: int)
    requires
        0 <= from <= k,
        k + 1 < s.len(),
        forall|i: int| 0 <= i < k ==> is_digit(#[trigger] s[i]),
        s[k] == delim_byte(),
        s[k + 1] == delim_byte(),
    ensures
        spec_find_delim(s, from) == Some(k),
    decreases k - from,
{
    if from < k {
        assert(is_digit(s[from]));
        lemma_find_delim_after_digits(s, k, from + 1);
    }
}

/// Composing a name and parsing it back returns the number and id exactly.
pub proof fn lemma_version_name_round_trip(n: u64, id: Seq<u8>)
    ensures
        spec_parse_version_name(spec_compose_version_name(n, id)) == Some((n, id)),
{
    lemma_digits_of(n as nat);
    let d = digits_of(n as nat);
    let s = spec_compose_version_name(n, id);
    let k = d.len() as int;
    assert(forall|i: int| 0 <= i < k ==> s[i] == d[i]);
    assert(s[k] == delim_byte() && s[k + 1] == delim_byte());
    lemma_find_delim_after_digits(s, k, 0);
    assert(s.subrange(0, k) =~= d);
    assert(s.subrange(k + 2, s.len() as int) =~= id);
}

/// The order the version numbers are compared by.
pub open spec fn u64_le() -> spec_fn(u64, u64) -> bool {
    |a: u64, b: u64| a <= b
}

/// `u64_le` is a total order.
pub proof fn lemma_u64_le_total()
    ensures
        total_ordering(u64_le()),
{
}

/// Whether the numbers of `s`, sorted, form a run that climbs by exactly
/// one from each element to the next.  Duplicates and gaps both break it;
/// the empty sequence and any single number pass.
pub open spec fn is_contiguous(s: Seq<u64>) -> bool {
    let t = s.sort_by(u64_le());
    forall|i: int| 0 <= i < t.len() - 1 ==> #[trigger] t[i + 1] == t[i] + 1
}

/// Appending digits never shrinks the value a digit string denotes.
proof fn lemma_digits_val_prefix(s: Seq<u8>, t: Seq<u8>)
    requires
        s.len() <= t.len(),
        forall|i: int| 0 <= i < s.len() ==> #[trigger] t[i] == s[i],
        forall|i: int| 0 <= i < t.len() ==> is_digit(#[trigger] t[i]),
    ensures
        digits_val(s) <= digits_val(t),
    decreases t.len(),
{
    if s.len() == t.len() {
        assert(s =~= t);
    } else {
        lemma_digits_val_prefix(s, t.drop_last());
        assert(forall|i: int| 0 <= i < t.len() - 1 ==> #[trigger] t.drop_last()[i] == t[i]);
        assert(digits_val(t) == digits_val(t.drop_last()) * 10 + ((t.last() - 48) as nat));
        assert(digits_val(t.drop_last()) * 10 >= digits_val(t.drop_last()));
    }
}

/// Parses a decimal number from the first `end` bytes of `name`.
fn parse_u64_prefix(name: &Vec<u8>, end: usize) -> (r: Option<u64>)
    requires
        end <= name@.len(),
    ensures
        r == spec_parse_u64(name@.subrange(0, end as int)),
{
    let ghost s = name@.subrange(0, end as int);
    if end == 0 {
        proof {
            assert(!is_digits(s));
        }
        return None;
    }
    let mut value: u64 = 0;
    let mut i: usize = 0;
    while i < end
        invariant
            0 < end <= name@.len(),
            s == name@.subrange(0, end as int),
            0 <= i <= end,
            forall|j: int| 0 <= j < i ==> is_digit(#[trigger] s[j]),
            value == digits_val(s.subrange(0, i as int)),
        decreases end - i,
    {
        let b = name[i];
        if b < 48 || b > 57 {
            proof {
                assert(s[i as int] == b);
                assert(!is_digit(s[i as int]));
                assert(!is_digits(s));
            }
            return None;
        }
        let d = b - 48;
        if value > (u64::MAX - d as u64) / 10 {
            proof {
                let p = s.subrange(0, i as int);
                let p1 = s.subrange(0, i + 1);
                assert(p1.drop_last() =~= p);
                assert(digits_val(p1) == digits_val(p) * 10 + d);
                assert(digits_val(p) * 10 + d > u64::MAX) by (nonlinear_arith)
                    requires
                        digits_val(p) == value,
                        d == b - 48,
                        value > (u64::MAX - d as u64) / 10,
                        d <= 9,
                ;
                if is_digits(s) {
                    lemma_digits_val_prefix(p1, s);
                }
            }
            return None;
        }
        proof {
            let p = s.subrange(0, i as int);
            let p1 = s.subrange(0, i + 1);
            assert(p1.drop_last() =~= p);
            assert(value * 10 + d <= u64::MAX) by (nonlinear_arith)
                requires
                    value <= (u64::MAX - d as u64) / 10,
                    d <= 9,
            ;
        }
        value = value * 10 + d as u64;
        i = i + 1;
    }
    proof {
        assert(s.subrange(0, end as int) =~= s);
        assert(is_digits(s));
    }
    Some(value)
}

/// Parses a version directory name into its number and id, as
/// `spec_parse_version_name` reads it; a malformed name gives `None`.
pub fn parse_version_dir_name(name: &Vec<u8>) -> (r: Option<(u64, Vec<u8>)>)
    ensures
        r is Some <==> spec_parse_version_name(name@) is Some,
        r is Some ==> spec_parse_version_name(name@) == Some(
            (r.unwrap().0, r.unwrap().1.deep_view()),
        ),
{
    let n = name.len();
    let mut i: usize = 0;
    loop
        invariant
            n == name@.len(),
            0 <= i,
            i <= n,
            spec_find_delim(name@, 0) == spec_find_delim(name@, i as int),
        ensures
            i + 1 < n,
            name@[i as int] == 95 && name@[i as int + 1] == 95,
            spec_find_delim(name@, 0) == spec_find_delim(name@, i as int),
        decreases n - i,
    {
        if n - i < 2 {
            proof {
                assert(spec_find_delim(name@, i as int) is None);
            }
            return None;
        }
        if name[i] == 95 && name[i + 1] == 95 {
            break ;
        }
        i = i + 1;
    }
    proof {
        assert(spec_find_delim(name@, 0) == Some(i as int));
    }
    let num = match parse_u64_prefix(name, i) {
        Some(v) => v,
        None => {
            return None;
        },
    };
    let mut id: Vec<u8> = Vec::new();
    let mut j: usize = i + 2;
    while j < n
        invariant
            n == name@.len(),
            i + 2 <= j <= n,
            id@ =~= name@.subrange(i + 2, j as int),
        decreases n - j,
    {
        id.push(name[j]);
        proof {
            assert(id@ =~= name@.subrange(i + 2, j + 1));
        }
        j = j + 1;
    }
    proof {
        assert(id@ =~= name@.subrange(i + 2, name@.len() as int));
        assert(id.deep_view() =~= id@);
    }
    Some((num, id))
}

/// The canonical decimal digits of `n`, as bytes.
fn format_u64(n: u64) -> (r: Vec<u8>)
    ensures
        r@ == digits_of(n as nat),
    decreases n,
{
    if n < 10 {
        let mut r: Vec<u8> = Vec::new();
        r.push(48 + n as u8);
        proof {
            assert(r@ =~= digits_of(n as nat));
        }
        r
    } else {
        let mut r = format_u64(n / 10);
        r.push(48 + (n % 10) as u8);
        proof {
            assert(r@ =~= digits_of(n as nat));
        }
        r
    }
}

/// The directory name under which a version with this number and id is
/// stored: the decimal number, the double delimiter, the id.
pub fn compose_version_dir_name(version_number: u64, version_id: &Vec<u8>) -> (r: Vec<u8>)
    ensures
        r@ == spec_compose_version_name(version_number, version_id@),
{
    let mut r = format_u64(version_number);
    r.push(95);
    r.push(95);
    let mut j: usize = 0;
    let ghost mid = r@;
    while j < version_id.len()
        invariant
            0 <= j <= version_id@.len(),
            r@ =~= mid + version_id@.subrange(0, j as int),
        decreases version_id@.len() - j,
    {
        r.push(version_id[j]);
        proof {
            assert(r@ =~= mid + version_id@.subrange(0, j + 1));
        }
        j = j + 1;
    }
    proof {
        assert(r@ =~= spec_compose_version_name(version_number, version_id@));
    }
    r
}

/// Whether a version id may be used to create a version: it is nonempty and
/// holds no double-delimiter.
pub open spec fn spec_valid_version_id(id: Seq<u8>) -> bool {
    id.len() > 0 && spec_find_delim(id, 0) is None
}

/// Decides `spec_valid_version_id`.
pub fn valid_version_id(id: &Vec<u8>) -> (r: bool)
    ensures
        r == spec_valid_version_id(id@),
{
    let n = id.len();
    if n == 0 {
        return false;
    }
    let mut i: usize = 0;
    loop
        invariant
            n == id@.len(),
            n > 0,
            0 <= i,
            i <= n,
            spec_find_delim(id@, 0) == spec_find_delim(id@, i as int),
        decreases n - i,
    {
        if n - i < 2 {
            proof {
                assert(spec_find_delim(id@, i as int) is None);
            }
            return true;
        }
        if id[i] == 95 && id[i + 1] == 95 {
            proof {
                assert(spec_find_delim(id@, i as int) == Some(i as int));
            }
            return false;
        }
        i = i + 1;
    }
}

/// Sorts the numbers ascending: the result lists the same numbers, in
/// ascending order.
fn sort_u64(v: &Vec<u64>) -> (r: Vec<u64>)
    ensures
        sorted_by(r@, u64_le()),
        r@.to_multiset() == v@.to_multiset(),
{
    broadcast use vstd::seq_lib::group_to_multiset_ensures;

    let mut work = crate::versions::copy_u64s(v);
    let mut out: Vec<u64> = Vec::new();
    while work.len() > 0
        invariant
            out@.to_multiset().add(work@.to_multiset()) == v@.to_multiset(),
            sorted_by(out@, u64_le()),
            forall|a: int, b: int|
                0 <= a < out@.len() && 0 <= b < work@.len() ==> (#[trigger] out@[a])
                    <= (#[trigger] work@[b]),
        decreases work@.len(),
    {
        let mut m: usize = 0;
        let mut k: usize = 1;
        while k < work.len()
            invariant
                work@.len() > 0,
                0 <= m < work@.len(),
                m < k,
                0 < k <= work@.len(),
                forall|l: int| 0 <= l < k ==> work@[m as int] <= #[trigger] work@[l],
            decreases work@.len() - k,
        {
            if work[k] < work[m] {
                m = k;
            }
            k = k + 1;
        }
        let ghost pre_work = work@;
        let ghost pre_out = out@;
        let x = work.remove(m);
        out.push(x);
        proof {
            pre_work.to_multiset_ensures();
            pre_out.to_multiset_ensures();
            assert(pre_work.remove(m as int).to_multiset() =~= pre_work.to_multiset().remove(x));
            assert(pre_out.push(x).to_multiset() =~= pre_out.to_multiset().insert(x));
            assert(out@.to_multiset().add(work@.to_multiset()) =~= v@.to_multiset());
            assert forall|a: int, b: int|
                0 <= a < out@.len() && 0 <= b < work@.len() implies (#[trigger] out@[a])
                <= (#[trigger] work@[b]) by {
                assert(work@[b] == pre_work[if b < m {
                    b
                } else {
                    b + 1
                }]);
            }
            assert forall|a: int, b: int| 0 <= a < b < out@.len() implies u64_le()(
                out@[a],
                out@[b],
            ) by {
                if b < out@.len() - 1 {
                    assert(u64_le()(pre_out[a], pre_out[b]));
                } else {
                    assert(out@[b] == x);
                    assert(pre_out[a] <= pre_work[m as int]);
                }
            }
        }
    }
    proof {
        assert(work@.to_multiset() =~= Multiset::<u64>::empty());
        assert(out@.to_multiset() =~= v@.to_multiset());
    }
    out
}

/// An owned copy of a vector of numbers.
fn copy_u64s(v: &Vec<u64>) -> (r: Vec<u64>)
    ensures
        r@ == v@,
{
    vstd::slice::slice_to_vec(v.as_slice())
}

/// Decides `is_contiguous`: sorts the numbers and walks the result,
/// checking that each neighbor climbs by exactly one.
pub fn is_contiguous_set(set: &Vec<u64>) -> (r: bool)
    ensures
        r == is_contiguous(set@),
{
    let sorted = sort_u64(set);
    proof {
        lemma_u64_le_total();
        set@.lemma_sort_by_ensures(u64_le());
        lemma_sorted_unique(sorted@, set@.sort_by(u64_le()), u64_le());
        assert(sorted@ == set@.sort_by(u64_le()));
    }
    let n = sorted.len();
    let mut i: usize = 0;
    while n > 0 && i < n - 1
        invariant
            n == sorted@.len(),
            sorted@ == set@.sort_by(u64_le()),
            0 <= i,
            i <= n,
            forall|j: int| 0 <= j < i ==> #[trigger] sorted@[j + 1] == sorted@[j] + 1,
        decreases n - i,
    {
        if sorted[i] == u64::MAX || sorted[i + 1] != sorted[i] + 1 {
            proof {
                assert(sorted@[i as int + 1] != sorted@[i as int] + 1);
            }
            return false;
        }
        i = i + 1;
    }
    true
}

/// The next version number: one past the largest, or zero when no version
/// exists.  A largest number at the very top of the range cannot be
/// advanced and is reported as corruption.
pub fn next_version_number(all_versions_numbers: &Vec<u64>) -> (r: Result<u64, StorageError>)
    ensures
        all_versions_numbers@.len() == 0 ==> r == Ok::<u64, StorageError>(0u64),
        r is Ok && all_versions_numbers@.len() > 0 ==> exists|i: int|
            0 <= i < all_versions_numbers@.len() && r.unwrap() == #[trigger] all_versions_numbers@[i]
                + 1 && forall|j: int|
                0 <= j < all_versions_numbers@.len() ==> #[trigger] all_versions_numbers@[j]
                    <= all_versions_numbers@[i],
        r is Err <==> exists|i: int|
            0 <= i < all_versions_numbers@.len() && #[trigger] all_versions_numbers@[i] == u64::MAX,
        r is Err ==> r.unwrap_err() == StorageError::Corruption,
{
    let n = all_versions_numbers.len();
    if n == 0 {
        return Ok(0);
    }
    let mut m: usize = 0;
    let mut k: usize = 1;
    while k < n
        invariant
            n == all_versions_numbers@.len(),
            0 <= m < n,
            0 < k <= n,
            forall|l: int|
                0 <= l < k ==> #[trigger] all_versions_numbers@[l]
                    <= all_versions_numbers@[m as int],
        decreases n - k,
    {
        if all_versions_numbers[k] > all_versions_numbers[m] {
            m = k;
        }
        k = k + 1;
    }
    if all_versions_numbers[m] == u64::MAX {
        Err(StorageError::Corruption)
    } else {
        Ok(all_versions_numbers[m] + 1)
    }
}

/// The contiguity judgment on familiar shapes: the empty set and any single
/// number pass; a run from `a` of length `k + 1` passes; a passing sequence
/// never holds a duplicate and never jumps over a number that lies between
/// two of its members.
pub proof fn lemma_is_contiguous_cases(n: u64, a: u64, k: nat, s: Seq<u64>, x: u64, z: u64, y: u64)
    requires
        a + k <= u64::MAX,
    ensures
        is_contiguous(Seq::<u64>::empty()),
        is_contiguous(seq![n]),
        is_contiguous(Seq::new(k + 1, |i: int| (a + i) as u64)),
        is_contiguous(s) ==> s.no_duplicates(),
        is_contiguous(s) && s.contains(x) && s.contains(y) && x <= z <= y ==> s.contains(z),
{
    broadcast use vstd::seq_lib::group_to_multiset_ensures;

    lemma_u64_le_total();
    let e = Seq::<u64>::empty();
    e.lemma_sort_by_ensures(u64_le());
    assert(e.sort_by(u64_le()).to_multiset().len() == e.to_multiset().len());
    assert(e.to_multiset().len() == 0);
    assert(e.sort_by(u64_le()).len() == e.sort_by(u64_le()).to_multiset().len());
    assert(e.sort_by(u64_le()).len() == 0);
    let one = seq![n];
    one.lemma_sort_by_ensures(u64_le());
    assert(sorted_by(one, u64_le()));
    lemma_sorted_unique(one, one.sort_by(u64_le()), u64_le());
    let run = Seq::new(k + 1, |i: int| (a + i) as u64);
    run.lemma_sort_by_ensures(u64_le());
    assert(sorted_by(run, u64_le()));
    lemma_sorted_unique(run, run.sort_by(u64_le()), u64_le());
    assert(forall|i: int| 0 <= i < run.len() - 1 ==> #[trigger] run.sort_by(u64_le())[i + 1]
        == run.sort_by(u64_le())[i] + 1);
    if is_contiguous(s) {
        let t = s.sort_by(u64_le());
        s.lemma_sort_by_ensures(u64_le());
        assert forall|p: int, q: int| 0 <= p < q < t.len() implies t[p] != t[q] by {
            lemma_run_strict(t, p, q);
        }
        assert(t.no_duplicates());
        t.lemma_multiset_has_no_duplicates();
        s.lemma_multiset_has_no_duplicates_conv();
        if s.contains(x) && s.contains(y) && x <= z <= y {
            assert(s.to_multiset().count(x) > 0 && s.to_multiset().count(y) > 0);
            assert(t.to_multiset().count(x) > 0 && t.to_multiset().count(y) > 0);
            assert(t.contains(x) && t.contains(y));
            let px = choose|p: int| 0 <= p < t.len() && t[p] == x;
            let py = choose|p: int| 0 <= p < t.len() && t[p] == y;
            if px <= py {
                lemma_run_value(t, px, py);
            } else {
                lemma_run_value(t, py, px);
            }
            let pz = px + z - x;
            lemma_run_value(t, if px <= pz {
                px
            } else {
                pz
            }, if px <= pz {
                pz
            } else {
                px
            });
            assert(t[pz] == z);
            assert(t.contains(z));
            assert(t.to_multiset().count(z) > 0);
            assert(s.to_multiset().count(z) > 0);
            assert(s.contains(z));
        }
    }
}

/// In a run of numbers that climbs by one, the value at a later position is
/// the earlier value plus the distance.
proof fn lemma_run_value(t: Seq<u64>, p: int, q: int)
    requires
        0 <= p <= q < t.len(),
        forall|i: int| 0 <= i < t.len() - 1 ==> #[trigger] t[i + 1] == t[i] + 1,
    ensures
        t[q] == t[p] + (q - p),
    decreases q - p,
{
    if p < q {
        lemma_run_value(t, p, q - 1);
        assert(t[(q - 1) + 1] == t[q - 1] + 1);
    }
}

/// Contiguity depends only on which numbers occur, not on their order.
pub proof fn lemma_is_contiguous_perm(s: Seq<u64>, t: Seq<u64>)
    requires
        s.to_multiset() == t.to_multiset(),
    ensures
        is_contiguous(s) == is_contiguous(t),
{
    lemma_u64_le_total();
    s.lemma_sort_by_ensures(u64_le());
    t.lemma_sort_by_ensures(u64_le());
    lemma_sorted_unique(s.sort_by(u64_le()), t.sort_by(u64_le()), u64_le());
    assert(s.sort_by(u64_le()) == t.sort_by(u64_le()));
}

/// A sequence already in ascending order is its own sorted form.
pub proof fn lemma_sorted_is_sorted(s: Seq<u64>)
    requires
        sorted_by(s, u64_le()),
    ensures
        s.sort_by(u64_le()) == s,
{
    lemma_u64_le_total();
    s.lemma_sort_by_ensures(u64_le());
    lemma_sorted_unique(s, s.sort_by(u64_le()), u64_le());
}

/// In a run that climbs by one, later elements are strictly larger.
proof fn lemma_run_strict(t: Seq<u64>, p: int, q: int)
    requires
        0 <= p < q < t.len(),
        forall|i: int| 0 <= i < t.len() - 1 ==> #[trigger] t[i + 1] == t[i] + 1,
    ensures
        t[p] < t[q],
    decreases q - p,
{
    assert(t[p + 1] == t[p] + 1);
    if p + 1 < q {
        lemma_run_strict(t, p + 1, q);
    }
}

} // verus!
