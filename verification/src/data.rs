//! Summarising a sequence of loosely typed values: the total character count
//! of the string elements plus the sum of the integer elements.

use vstd::prelude::*;

verus! {

use vstd::arithmetic::div_mod::{
    lemma_add_mod_noop,
    lemma_mod_add_multiples_vanish,
    lemma_mod_bound,
    lemma_mod_sub_multiples_vanish,
    lemma_mod_twice,
    lemma_small_mod,
};
use vstd::string::StrSliceExecFns;
use vstd::wrapping::{i64_specs, usize_specs};

/// One element of a request body, already classified by its type tag: a
/// string, a signed 64-bit integer, or any other value (a floating-point
/// number, a boolean, a null, an array, an object), which the summary
/// ignores.  The classification is by the element's type, not its value: a
/// number written with a decimal point or an exponent is `Other` even when
/// its value is integral.
#[derive(Debug)]
pub enum DataValue {
    Str(String),
    Int(i64),
    Other,
}

/// A request body: an ordered sequence of loosely typed values.
pub struct DataRequest {
    pub data: Vec<DataValue>,
}

/// A summary of one request: the total character count of the string
/// elements and the sum of the integer elements.
#[derive(Debug, PartialEq, Eq, Structural)]
pub struct DataResponse {
    pub string_len: usize,
    pub int_sum: i64,
}

/// The character count one element contributes: its number of Unicode scalar
/// values for a string, zero for everything else.
pub open spec fn elem_len(v: DataValue) -> nat {
    match v {
        DataValue::Str(s) => s@.len(),
        _ => 0,
    }
}

/// The amount one element contributes to the integer sum: its value for an
/// integer, zero for everything else.
pub open spec fn elem_int(v: DataValue) -> int {
    match v {
        DataValue::Int(n) => n as int,
        _ => 0,
    }
}

/// The total character count of the string elements of a sequence.
pub open spec fn string_len_of(s: Seq<DataValue>) -> nat
    decreases s.len(),
{
    if s.len() == 0 {
        0
    } else {
        string_len_of(s.drop_last()) + elem_len(s.last())
    }
}

/// The arithmetic sum of the integer elements of a sequence.
pub open spec fn int_sum_of(s: Seq<DataValue>) -> int
    decreases s.len(),
{
    if s.len() == 0 {
        0
    } else {
        int_sum_of(s.drop_last()) + elem_int(s.last())
    }
}

/// The modulus of `usize` arithmetic.
pub open spec fn usize_base() -> nat {
    usize::MAX as nat + 1
}

/// The modulus of `i64` arithmetic.
pub open spec fn i64_base() -> int {
    0x1_0000_0000_0000_0000
}

/// A mathematical character total reduced to the `usize` range by wrapping
/// (two's-complement) arithmetic.  The totals of real requests stay far below
/// `usize::MAX`, where this is the identity.
pub open spec fn wrap_len(total: nat) -> nat {
    total % usize_base()
}

/// A mathematical integer total reduced to the `i64` range by wrapping
/// (two's-complement) arithmetic, the summing policy this crate commits to
/// for totals that leave the `i64` range.
pub open spec fn wrap_sum(total: int) -> int {
    let m = total % i64_base();
    if m > i64::MAX {
        m - i64_base()
    } else {
        m
    }
}

/// A character total already in the `usize` range is unchanged by wrapping.
pub proof fn lemma_wrap_len_in_range(total: nat)
    ensures
        total <= usize::MAX ==> wrap_len(total) == total,
{
    if total <= usize::MAX {
        lemma_small_mod(total, usize_base());
    }
}

/// An integer total already in the `i64` range is unchanged by wrapping.
pub proof fn lemma_wrap_sum_in_range(total: int)
    ensures
        i64::MIN <= total <= i64::MAX ==> wrap_sum(total) == total,
{
    if 0 <= total <= i64::MAX {
        lemma_small_mod(total as nat, i64_base() as nat);
    } else if i64::MIN <= total < 0 {
        lemma_mod_add_multiples_vanish(total, i64_base());
        lemma_small_mod((total + i64_base()) as nat, i64_base() as nat);
    }
}

/// One machine addition advances the wrapped character total by one
/// element's count.
proof fn lemma_wrap_len_step(acc: usize, total: nat, b: usize)
    requires
        acc == wrap_len(total),
    ensures
        usize_specs::wrapping_add(acc, b) == wrap_len(total + b as nat),
{
    let base = usize_base() as int;
    lemma_mod_bound(total as int, base);
    lemma_small_mod(b as nat, usize_base());
    lemma_add_mod_noop(total as int, b as int, base);
    if acc + b > usize::MAX {
        lemma_mod_add_multiples_vanish(acc + b - base, base);
        lemma_small_mod((acc + b - base) as nat, usize_base());
    } else {
        lemma_small_mod((acc + b) as nat, usize_base());
    }
}

/// One machine addition advances the wrapped integer total by one element's
/// value.
proof fn lemma_wrap_sum_step(acc: i64, total: int, b: i64)
    requires
        acc == wrap_sum(total),
    ensures
        i64_specs::wrapping_add(acc, b) == wrap_sum(total + b),
{
    let base = i64_base();
    lemma_mod_bound(total, base);
    lemma_mod_twice(total, base);
    if acc != total % base {
        lemma_mod_sub_multiples_vanish(total % base, base);
    }
    assert((acc as int) % base == total % base);
    lemma_add_mod_noop(acc as int, b as int, base);
    lemma_add_mod_noop(total, b as int, base);
    assert((acc + b) % base == (total + b) % base);
    let s = acc + b;
    if i64::MIN <= s <= i64::MAX {
        lemma_wrap_sum_in_range(s);
    } else if s > i64::MAX {
        lemma_small_mod(s as nat, base as nat);
    } else {
        lemma_mod_add_multiples_vanish(s, base);
        lemma_small_mod((s + base) as nat, base as nat);
    }
}

/// Removing one element lowers each total by exactly that element's
/// contribution.
pub proof fn lemma_sums_drop(s: Seq<DataValue>, j: int)
    requires
        0 <= j < s.len(),
    ensures
        string_len_of(s) == string_len_of(s.remove(j)) + elem_len(s[j]),
        int_sum_of(s) == int_sum_of(s.remove(j)) + elem_int(s[j]),
    decreases s.len(),
{
    if j == s.len() - 1 {
        assert(s.remove(j) =~= s.drop_last());
    } else {
        let t = s.drop_last();
        assert(s.remove(j).drop_last() =~= t.remove(j));
        assert(s.remove(j).last() == s.last());
        lemma_sums_drop(t, j);
        assert(t[j] == s[j]);
    }
}

/// Permuting the elements changes neither total: each is a sum over the
/// elements' multiset, blind to the order in which the scan visits them.
pub proof fn lemma_order_independence(a: Seq<DataValue>, b: Seq<DataValue>)
    requires
        a.to_multiset() == b.to_multiset(),
    ensures
        string_len_of(a) == string_len_of(b),
        int_sum_of(a) == int_sum_of(b),
    decreases a.len(),
{
    broadcast use vstd::multiset::group_multiset_axioms;

    a.to_multiset_ensures();
    b.to_multiset_ensures();
    if a.len() > 0 {
        let v = a.last();
        assert(a[a.len() - 1] == v);
        assert(a.contains(v));
        assert(a.to_multiset().count(v) > 0);
        assert(b.to_multiset().count(v) > 0);
        assert(b.contains(v));
        let j = choose|j: int| 0 <= j < b.len() && b[j] == v;
        assert(0 <= j < b.len() && b[j] == v);
        let b2 = b.remove(j);
        let t = a.drop_last();
        t.to_multiset_ensures();
        assert(t.push(v) =~= a);
        assert(t.push(v).to_multiset() == t.to_multiset().insert(v));
        assert(b2.to_multiset() == b.to_multiset().remove(v));
        assert(t.to_multiset().insert(v).remove(v) =~= t.to_multiset());
        assert(b2.to_multiset() == t.to_multiset());
        lemma_order_independence(t, b2);
        lemma_sums_drop(b, j);
        assert(string_len_of(a) == string_len_of(t) + elem_len(v));
        assert(int_sum_of(a) == int_sum_of(t) + elem_int(v));
    }
}

/// A sequence without string elements has character total zero.
pub proof fn lemma_no_strings(s: Seq<DataValue>)
    requires
        forall|i: int| 0 <= i < s.len() ==> !(s[i] is Str),
    ensures
        string_len_of(s) == 0,
    decreases s.len(),
{
    if s.len() > 0 {
        let t = s.drop_last();
        assert forall|i: int| 0 <= i < t.len() implies !(t[i] is Str) by {
            assert(t[i] == s[i]);
        }
        lemma_no_strings(t);
        assert(!(s[s.len() - 1] is Str));
    }
}

/// A sequence without integer elements has integer total zero.
pub proof fn lemma_no_ints(s: Seq<DataValue>)
    requires
        forall|i: int| 0 <= i < s.len() ==> !(s[i] is Int),
    ensures
        int_sum_of(s) == 0,
    decreases s.len(),
{
    if s.len() > 0 {
        let t = s.drop_last();
        assert forall|i: int| 0 <= i < t.len() implies !(t[i] is Int) by {
            assert(t[i] == s[i]);
        }
        lemma_no_ints(t);
        assert(!(s[s.len() - 1] is Int));
    }
}

/// Elements that are not integers — floating-point numbers among them — are
/// never added to the integer total, and elements that are not strings never
/// lengthen the character total: inserting such an element anywhere leaves
/// the respective total unchanged.  In particular no single element ever
/// feeds both totals.
pub proof fn lemma_skipped_values(s: Seq<DataValue>, j: int, v: DataValue)
    requires
        0 <= j <= s.len(),
    ensures
        !(v is Int) ==> int_sum_of(s.insert(j, v)) == int_sum_of(s),
        !(v is Str) ==> string_len_of(s.insert(j, v)) == string_len_of(s),
{
    let s2 = s.insert(j, v);
    assert(s2.remove(j) =~= s);
    assert(s2[j] == v);
    lemma_sums_drop(s2, j);
}

/// Summarise one request: scan its elements once, in order, adding the
/// character count of every string element to `string_len` and the value of
/// every integer element to `int_sum`; every other element is skipped.  Each
/// accumulator wraps (two's-complement) if its mathematical total leaves the
/// machine range, and equals the mathematical total whenever that total is
/// in range.
pub fn process_data(request: &DataRequest) -> (r: DataResponse)
    ensures
        r.string_len == wrap_len(string_len_of(request.data@)),
        r.int_sum == wrap_sum(int_sum_of(request.data@)),
        string_len_of(request.data@) <= usize::MAX ==> r.string_len == string_len_of(
            request.data@,
        ),
        i64::MIN <= int_sum_of(request.data@) <= i64::MAX ==> r.int_sum == int_sum_of(
            request.data@,
        ),
{
    let ghost all = request.data@;
    let mut string_len: usize = 0;
    let mut int_sum: i64 = 0;
    let mut idx: usize = 0;
    proof {
        assert(all.take(0) =~= Seq::<DataValue>::empty());
        lemma_wrap_len_in_range(0);
        lemma_wrap_sum_in_range(0);
    }
    while idx < request.data.len()
        invariant
            idx <= request.data.len(),
            all == request.data@,
            string_len == wrap_len(string_len_of(all.take(idx as int))),
            int_sum == wrap_sum(int_sum_of(all.take(idx as int))),
        decreases request.data.len() - idx,
    {
        let ghost prefix = all.take(idx as int);
        let ghost next = all.take(idx as int + 1);
        proof {
            assert(next.drop_last() =~= prefix);
            assert(next.last() == all[idx as int]);
        }
        match &request.data[idx] {
            DataValue::Str(s) => {
                let n = s.as_str().unicode_len();
                proof {
                    lemma_wrap_len_step(string_len, string_len_of(prefix), n);
                }
                string_len = string_len.wrapping_add(n);
            },
            DataValue::Int(n) => {
                proof {
                    lemma_wrap_sum_step(int_sum, int_sum_of(prefix), *n);
                }
                int_sum = int_sum.wrapping_add(*n);
            },
            DataValue::Other => {},
        }
        idx = idx + 1;
    }
    proof {
        assert(all.take(all.len() as int) =~= all);
        lemma_wrap_len_in_range(string_len_of(all));
        lemma_wrap_sum_in_range(int_sum_of(all));
    }
    DataResponse { string_len, int_sum }
}

} // verus!
