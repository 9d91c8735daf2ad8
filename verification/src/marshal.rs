//! Marshaling for the host runtime: owned copies of byte pairs, and the
//! ordered list of values that answers a multi-key read in the order the
//! keys were asked in.

use vstd::prelude::*;

use crate::bytes::{bytes_eq, dup_bytes};

verus! {

/// An owned key-value entry, copied out of the store for the host.
pub fn create_jentry(key: &Vec<u8>, value: &Vec<u8>) -> (r: (Vec<u8>, Vec<u8>))
    ensures
        r.0@ == key@,
        r.1@ == value@,
{
    (dup_bytes(key), dup_bytes(value))
}

/// The value recorded for `key` in the answer of a multi-key read, copied
/// out, or `None` when the answer holds no entry for `key` at all.
fn find_value(key_values: &Vec<(Vec<u8>, Option<Vec<u8>>)>, key: &Vec<u8>) -> (r: Option<
    Option<Vec<u8>>,
>)
    ensures
        r is Some <==> exists|j: int|
            0 <= j < key_values@.len() && (#[trigger] key_values@[j]).0@ == key@,
        r is Some ==> exists|j: int|
            0 <= j < key_values@.len() && (#[trigger] key_values@[j]).0@ == key@
                && r.unwrap().deep_view() == key_values@[j].1.deep_view(),
{
    let m = key_values.len();
    let mut j: usize = 0;
    while j < m
        invariant
            m == key_values@.len(),
            0 <= j <= m,
            forall|jj: int| 0 <= jj < j ==> (#[trigger] key_values@[jj]).0@ != key@,
        decreases m - j,
    {
        if bytes_eq(&key_values[j].0, key) {
            let value = match &key_values[j].1 {
                Some(v) => Some(dup_bytes(v)),
                None => None,
            };
            proof {
                assert(value.deep_view() =~~= key_values@[j as int].1.deep_view());
                assert(key_values@[j as int].0@ == key@);
            }
            return Some(value);
        }
        j = j + 1;
    }
    None
}

/// Some entry of the answer `kvs` holds the key `keys[i]`.
pub open spec fn key_covered(
    keys: Seq<Vec<u8>>,
    kvs: Seq<(Vec<u8>, Option<Vec<u8>>)>,
    i: int,
) -> bool {
    exists|j: int| 0 <= j < kvs.len() && (#[trigger] kvs[j]).0@ == keys[i]@
}

/// `out[i]` carries exactly what the answer `kvs` records for `keys[i]`.
pub open spec fn key_answered(
    keys: Seq<Vec<u8>>,
    kvs: Seq<(Vec<u8>, Option<Vec<u8>>)>,
    out: Seq<Option<Vec<u8>>>,
    i: int,
) -> bool {
    exists|j: int|
        0 <= j < kvs.len() && (#[trigger] kvs[j]).0@ == keys[i]@ && out[i].deep_view()
            == kvs[j].1.deep_view()
}

/// The value-or-absent for each of `keys`, in order, drawn from the answer
/// `key_values` of a multi-key read.  `None` when some key has no entry in
/// the answer at all — the answer does not cover the request.
pub fn map_to_java_list_of_values(
    keys: &Vec<Vec<u8>>,
    key_values: &Vec<(Vec<u8>, Option<Vec<u8>>)>,
) -> (r: Option<Vec<Option<Vec<u8>>>>)
    ensures
        r is Some <==> (forall|i: int|
            0 <= i < keys@.len() ==> #[trigger] key_covered(keys@, key_values@, i)),
        r is Some ==> r.unwrap()@.len() == keys@.len(),
        r is Some ==> forall|i: int|
            0 <= i < keys@.len() ==> #[trigger] key_answered(
                keys@,
                key_values@,
                r.unwrap()@,
                i,
            ),
{
    let mut out: Vec<Option<Vec<u8>>> = Vec::new();
    let ghost mut ws: Seq<int> = Seq::empty();
    let n = keys.len();
    let mut i: usize = 0;
    while i < n
        invariant
            n == keys@.len(),
            0 <= i <= n,
            out@.len() == i,
            ws.len() == i,
            forall|l: int|
                0 <= l < i ==> 0 <= #[trigger] ws[l] < key_values@.len() && key_values@[ws[l]].0@
                    == keys@[l]@ && out@[l].deep_view() == key_values@[ws[l]].1.deep_view(),
        decreases n - i,
    {
        match find_value(key_values, &keys[i]) {
            Some(value) => {
                let ghost vdeep = value.deep_view();
                out.push(value);
                proof {
                    let j = choose|j: int|
                        0 <= j < key_values@.len() && (#[trigger] key_values@[j]).0@ == keys@[
                            i as int
                        ]@ && vdeep == key_values@[j].1.deep_view();
                    ws = ws.push(j);
                }
            },
            None => {
                proof {
                    assert(!key_covered(keys@, key_values@, i as int));
                }
                return None;
            },
        }
        i = i + 1;
    }
    proof {
        assert forall|l: int| 0 <= l < keys@.len() implies #[trigger] key_covered(
            keys@,
            key_values@,
            l,
        ) by {
            assert(key_values@[ws[l]].0@ == keys@[l]@);
        }
        assert forall|l: int| 0 <= l < keys@.len() implies #[trigger] key_answered(
            keys@,
            key_values@,
            out@,
            l,
        ) by {
            assert(key_values@[ws[l]].0@ == keys@[l]@ && out@[l].deep_view()
                == key_values@[ws[l]].1.deep_view());
        }
    }
    Some(out)
}

} // verus!
