//! The order of consumer names.
use vstd::prelude::*;

verus! {

/// Whether a byte string comes before another.
fn bytes_before(left: &[u8], right: &[u8]) -> (before: bool)
    ensures
        before == crate::model::bytes_before(left@, right@),
{
    let mut i: usize = 0;
    while i < left.len() && i < right.len()
        invariant
            i <= left@.len(),
            i <= right@.len(),
            left@.take(i as int) == right@.take(i as int),
        decreases left@.len() - i,
    {
        if left[i] != right[i] {
            proof {
                if left[i as int] < right[i as int] {
                    assert(left@.take(i as int) == right@.take(i as int));
                } else {
                    assert forall|k: int|
                        0 <= k <= left@.len() && k < right@.len() && #[trigger] left@.take(k)
                            == right@.take(k) implies !(k < left@.len() ==> left@[k]
                        < right@[k]) by {
                        if k > i {
                            assert(left@.take(k)[i as int] == right@.take(k)[i as int]);
                        } else if k < i {
                            assert(left@.take(i as int)[k] == right@.take(i as int)[k]);
                        }
                    }
                }
            }
            return left[i] < right[i];
        }
        assert(left@.take(i + 1) =~= left@.take(i as int).push(left@[i as int]));
        assert(right@.take(i + 1) =~= right@.take(i as int).push(right@[i as int]));
        i += 1;
    }
    proof {
        if i < right@.len() {
            assert(left@.take(i as int) == right@.take(i as int));
        } else {
            assert forall|k: int|
                0 <= k <= left@.len() && k < right@.len() && #[trigger] left@.take(k)
                    == right@.take(k) implies !(k < left@.len() ==> left@[k] < right@[k]) by {
                assert(left@.take(i as int)[k] == right@.take(i as int)[k]);
            }
        }
    }
    i < right.len()
}

/// Whether a name comes before another.
pub(crate) fn name_before(left: &String, right: &String) -> (before: bool)
    ensures
        before == crate::model::name_before(left@, right@),
{
    bytes_before(left.as_str().as_bytes(), right.as_str().as_bytes())
}

/// No name comes before itself, and the order is transitive.
pub proof fn lemma_name_order(a: Seq<char>, b: Seq<char>, c: Seq<char>)
    ensures
        !crate::model::name_before(a, a),
        crate::model::name_before(a, b) && crate::model::name_before(b, c)
            ==> crate::model::name_before(a, c),
{
    let x = vstd::utf8::encode_utf8(a);
    let y = vstd::utf8::encode_utf8(b);
    let z = vstd::utf8::encode_utf8(c);
    if crate::model::name_before(a, b) && crate::model::name_before(b, c) {
        let i = choose|k: int|
            {
                &&& 0 <= k <= x.len()
                &&& k < y.len()
                &&& #[trigger] x.take(k) == y.take(k)
                &&& k < x.len() ==> x[k] < y[k]
            };
        let j = choose|k: int|
            {
                &&& 0 <= k <= y.len()
                &&& k < z.len()
                &&& #[trigger] y.take(k) == z.take(k)
                &&& k < y.len() ==> y[k] < z[k]
            };
        let k = if i < j {
            i
        } else {
            j
        };
        assert(x.take(k) =~= x.take(i).take(k));
        assert(y.take(k) =~= y.take(i).take(k));
        assert(y.take(k) =~= y.take(j).take(k));
        assert(z.take(k) =~= z.take(j).take(k));
        if i < j {
            assert(y.take(j)[i] == z.take(j)[i]);
        } else if j < i {
            assert(x.take(i)[j] == y.take(i)[j]);
        }
        assert(x.take(k) == z.take(k));
    }
}

/// Of two different byte strings, one comes before the other.
proof fn lemma_bytes_total(a: Seq<u8>, b: Seq<u8>, n: int)
    requires
        a != b,
        0 <= n <= a.len(),
        n <= b.len(),
        a.take(n) == b.take(n),
    ensures
        crate::model::bytes_before(a, b) || crate::model::bytes_before(b, a),
    decreases a.len() - n,
{
    if n == a.len() || n == b.len() {
        if a.len() == b.len() {
            assert(a.take(n) =~= a);
            assert(b.take(n) =~= b);
        }
        assert(b.take(n) == a.take(n));
    } else if a[n] == b[n] {
        assert(a.take(n + 1) =~= a.take(n).push(a[n]));
        assert(b.take(n + 1) =~= b.take(n).push(b[n]));
        lemma_bytes_total(a, b, n + 1);
    } else {
        assert(b.take(n) == a.take(n));
    }
}

/// Of two different names, one comes before the other.
pub proof fn lemma_names_total(a: Seq<char>, b: Seq<char>)
    requires
        a != b,
    ensures
        crate::model::name_before(a, b) || crate::model::name_before(b, a),
{
    let x = vstd::utf8::encode_utf8(a);
    let y = vstd::utf8::encode_utf8(b);
    vstd::utf8::encode_utf8_decode_utf8(a);
    vstd::utf8::encode_utf8_decode_utf8(b);
    assert(x.take(0) =~= y.take(0));
    lemma_bytes_total(x, y, 0);
}

} // verus!
