//! Searching and ordering the process list of the picker.

use crate::app::SortColumn;
use crate::sampler::{clone_process_info, ProcessInfo};
use crate::text::{
    all_ascii, ascii_lowercase, chars_of, contains_chars, decimal, decimal_chars, lowercase,
    occurs_in, to_lowercase,
};
use vstd::prelude::*;

verus! {

/// Whether the `f64` with bit pattern `bits` is NaN: all exponent bits set
/// and a non-zero fraction.
pub open spec fn cpu_is_nan(bits: u64) -> bool {
    (bits / 0x10_0000_0000_0000) % 0x800 == 0x7ff && bits % 0x10_0000_0000_0000 != 0
}

/// Whether the sign bit of the `f64` with bit pattern `bits` is set.
pub open spec fn cpu_sign_bit(bits: u64) -> bool {
    bits >= 0x8000_0000_0000_0000
}

/// The bit pattern of the `f64` without its sign bit: for numbers that are
/// not NaN, a larger magnitude is a larger absolute value.
pub open spec fn cpu_magnitude(bits: u64) -> nat {
    (bits % 0x8000_0000_0000_0000) as nat
}

/// Whether the `f64` held by `a` is at most the one held by `b`, for values
/// that are not NaN: zeros of either sign are equal, numbers of one sign
/// compare by magnitude (reversed for negatives), and negatives come below
/// the rest.
pub open spec fn cpu_le(a: u64, b: u64) -> bool {
    if cpu_magnitude(a) == 0 && cpu_magnitude(b) == 0 {
        true
    } else if !cpu_sign_bit(a) && !cpu_sign_bit(b) {
        cpu_magnitude(a) <= cpu_magnitude(b)
    } else if cpu_sign_bit(a) && cpu_sign_bit(b) {
        cpu_magnitude(b) <= cpu_magnitude(a)
    } else {
        cpu_sign_bit(a)
    }
}

/// An integer that orders CPU shares as their `f64` values order (see
/// `lemma_cpu_key_orders_as_value`): negative numbers below zero, both zeros
/// alike, positive numbers above.
pub open spec fn cpu_order_key(bits: u64) -> u64 {
    if cpu_sign_bit(bits) && cpu_magnitude(bits) != 0 {
        (0x7fff_ffff_ffff_ffff - cpu_magnitude(bits)) as u64
    } else {
        (0x8000_0000_0000_0000 + cpu_magnitude(bits)) as u64
    }
}

/// The CPU order key orders shares exactly as their values: a key is at most
/// another exactly when the share is at most the other, so equal keys are
/// equal values (both zeros included).
pub proof fn lemma_cpu_key_orders_as_value(a: u64, b: u64)
    ensures
        cpu_order_key(a) <= cpu_order_key(b) <==> cpu_le(a, b),
        cpu_order_key(a) == cpu_order_key(b) <==> cpu_le(a, b) && cpu_le(b, a),
{
}

/// Whether the `f64` with bit pattern `bits` is a finite number (zeros of
/// either sign included): its exponent field, bits 52 to 62, is not all ones.
pub open spec fn cpu_is_finite(bits: u64) -> bool {
    (bits / 0x10_0000_0000_0000) % 0x800 != 0x7ff
}

/// NaN is exactly what is neither a number nor an infinity: no finite number
/// (zeros of either sign included) is NaN, no pattern with a zero fraction
/// (zeros and the two infinities) is NaN, and every pattern with an all-ones
/// exponent and a non-zero fraction is.
pub proof fn lemma_numbers_are_not_nan(bits: u64)
    ensures
        cpu_is_finite(bits) ==> !cpu_is_nan(bits),
        bits % 0x10_0000_0000_0000 == 0 ==> !cpu_is_nan(bits),
        !cpu_is_finite(bits) && bits % 0x10_0000_0000_0000 != 0 ==> cpu_is_nan(bits),
{
}

/// The value a process is ordered by in the given column.
pub open spec fn sort_key(p: ProcessInfo, column: SortColumn) -> u64 {
    match column {
        SortColumn::Cpu => cpu_order_key(p.cpu_percent_bits),
        SortColumn::Memory => p.memory_bytes,
    }
}

/// Whether `s` can be ordered by `column`: ordering two or more processes by
/// CPU share compares every share, and a NaN share has no order.
pub open spec fn orderable(s: Seq<ProcessInfo>, column: SortColumn) -> bool {
    column == SortColumn::Cpu && s.len() >= 2 ==> forall|i: int|
        0 <= i < s.len() ==> !cpu_is_nan(#[trigger] s[i].cpu_percent_bits)
}

/// A list whose CPU shares are all finite numbers can be ordered by either
/// column.
pub proof fn lemma_finite_shares_are_orderable(s: Seq<ProcessInfo>, column: SortColumn)
    requires
        forall|i: int| 0 <= i < s.len() ==> cpu_is_finite(#[trigger] s[i].cpu_percent_bits),
    ensures
        orderable(s, column),
{
    assert forall|i: int| 0 <= i < s.len() implies !cpu_is_nan(#[trigger] s[i].cpu_percent_bits) by {
        lemma_numbers_are_not_nan(s[i].cpu_percent_bits);
    }
}

/// Narrowing a list whose CPU shares are all finite numbers leaves a list
/// that can be ordered by either column.
pub proof fn lemma_finite_shares_narrow_to_orderable(all: Seq<ProcessInfo>, query: Seq<char>, column: SortColumn)
    requires
        forall|i: int| 0 <= i < all.len() ==> cpu_is_finite(#[trigger] all[i].cpu_percent_bits),
    ensures
        orderable(all.filter(matching(query)), column),
{
    let f = all.filter(matching(query));
    assert forall|i: int| 0 <= i < f.len() implies cpu_is_finite(#[trigger] f[i].cpu_percent_bits) by {
        assert(f.contains(f[i]));
        all.lemma_filter_contains_rev(matching(query), f[i]);
        let j = choose|j: int| 0 <= j < all.len() && all[j] == f[i];
        assert(cpu_is_finite(all[j].cpu_percent_bits));
    }
    lemma_finite_shares_are_orderable(f, column);
}

/// Whether the `f64` with bit pattern `bits` is NaN.
fn is_nan_bits(bits: u64) -> (b: bool)
    ensures
        b == cpu_is_nan(bits),
{
    (bits / 0x10_0000_0000_0000) % 0x800 == 0x7ff && bits % 0x10_0000_0000_0000 != 0
}

/// Whether `v` can be ordered by `column`.
pub fn is_orderable(v: &Vec<ProcessInfo>, column: SortColumn) -> (b: bool)
    ensures
        b == orderable(v@, column),
{
    let n = v.len();
    if n < 2 {
        return true;
    }
    match column {
        SortColumn::Memory => true,
        SortColumn::Cpu => {
            let mut i: usize = 0;
            while i < n
                invariant
                    n == v@.len(),
                    n >= 2,
                    column == SortColumn::Cpu,
                    i <= n,
                    forall|j: int| 0 <= j < i ==> !cpu_is_nan(#[trigger] v@[j].cpu_percent_bits),
                decreases n - i,
            {
                if is_nan_bits(v[i].cpu_percent_bits) {
                    assert(cpu_is_nan(v@[i as int].cpu_percent_bits));
                    return false;
                }
                i = i + 1;
            }
            true
        },
    }
}

/// Whether key `a` may stand before key `b`: smaller first when ascending,
/// larger first otherwise.
pub open spec fn in_order(a: u64, b: u64, ascending: bool) -> bool {
    if ascending { a <= b } else { a >= b }
}

/// Whether `s` is ordered by `column` in the given direction.
pub open spec fn is_ordered(s: Seq<ProcessInfo>, column: SortColumn, ascending: bool) -> bool {
    forall|i: int, j: int|
        0 <= i < j < s.len() ==> in_order(#[trigger] sort_key(s[i], column), #[trigger] sort_key(s[j], column), ascending)
}

/// Whether a process has key `k` in `column`.
pub open spec fn has_key(column: SortColumn, k: u64) -> spec_fn(ProcessInfo) -> bool {
    |p: ProcessInfo| sort_key(p, column) == k
}

/// The processes of `s` whose key in `column` is `k`, in their order in `s`.
pub open spec fn with_key(s: Seq<ProcessInfo>, column: SortColumn, k: u64) -> Seq<ProcessInfo> {
    s.filter(has_key(column, k))
}

/// `r` is `s` stably sorted by `column`: it is ordered, and the processes
/// that share a key come in the same order as in `s` (so `r` holds exactly
/// the processes of `s`).
pub open spec fn stably_sorted(r: Seq<ProcessInfo>, s: Seq<ProcessInfo>, column: SortColumn, ascending: bool) -> bool {
    &&& is_ordered(r, column, ascending)
    &&& forall|k: u64| #[trigger] with_key(r, column, k) == with_key(s, column, k)
}

/// Filtering a sequence with `x` inserted at `pos` keeps `x` after what the
/// filter keeps of the sequence, provided no kept element follows `pos`.
proof fn lemma_filter_insert<A>(r: Seq<A>, pos: int, x: A, pred: spec_fn(A) -> bool)
    requires
        0 <= pos <= r.len(),
        pred(x) ==> forall|j: int| pos <= j < r.len() ==> !pred(#[trigger] r[j]),
    ensures
        r.insert(pos, x).filter(pred) == (if pred(x) { r.filter(pred).push(x) } else { r.filter(pred) }),
{
    let a = r.take(pos);
    let b = r.skip(pos);
    let one = seq![x];
    assert(r =~= a + b);
    assert(r.insert(pos, x) =~= (a + one) + b);
    Seq::filter_distributes_over_add(a + one, b, pred);
    Seq::filter_distributes_over_add(a, one, pred);
    Seq::filter_distributes_over_add(a, b, pred);
    reveal_with_fuel(Seq::filter, 2);
    assert(one.drop_last() =~= Seq::<A>::empty());
    if pred(x) {
        assert(one.filter(pred) =~= seq![x]);
        b.lemma_all_neg_filter_empty(pred);
        assert(b.filter(pred) =~= Seq::<A>::empty());
        assert(r.filter(pred) =~= a.filter(pred));
        assert(a.filter(pred) + one.filter(pred) =~= a.filter(pred).push(x));
        assert((a.filter(pred) + one.filter(pred)) + b.filter(pred) =~= a.filter(pred).push(x));
    } else {
        assert(one.filter(pred) =~= Seq::<A>::empty());
        assert(a.filter(pred) + one.filter(pred) =~= a.filter(pred));
    }
}

/// Filtering a sequence extended by `x` is filtering the sequence, then
/// keeping `x` if it passes.
proof fn lemma_filter_push<A>(s: Seq<A>, x: A, pred: spec_fn(A) -> bool)
    ensures
        s.push(x).filter(pred) == (if pred(x) { s.filter(pred).push(x) } else { s.filter(pred) }),
{
    reveal_with_fuel(Seq::filter, 1);
    assert(s.push(x).drop_last() =~= s);
}

/// Filtering drops the last element exactly when it fails the predicate.
proof fn lemma_filter_drop_last<A>(s: Seq<A>, pred: spec_fn(A) -> bool)
    requires
        s.len() > 0,
    ensures
        pred(s.last()) ==> s.filter(pred) == s.drop_last().filter(pred).push(s.last()),
        !pred(s.last()) ==> s.filter(pred) == s.drop_last().filter(pred),
{
    reveal_with_fuel(Seq::filter, 1);
}

/// Two ordered sequences that hold, key by key, the same processes in the
/// same order are equal.
proof fn lemma_same_runs_equal(r1: Seq<ProcessInfo>, r2: Seq<ProcessInfo>, column: SortColumn, ascending: bool)
    requires
        is_ordered(r1, column, ascending),
        is_ordered(r2, column, ascending),
        forall|k: u64| #[trigger] with_key(r1, column, k) == with_key(r2, column, k),
    ensures
        r1 == r2,
    decreases r1.len() + r2.len(),
{
    broadcast use vstd::seq_lib::group_filter_ensures;
    if r1.len() == 0 && r2.len() == 0 {
        assert(r1 =~= r2);
        return;
    }
    if r1.len() == 0 || r2.len() == 0 {
        let r = if r1.len() == 0 { r2 } else { r1 };
        let k = sort_key(r.last(), column);
        lemma_filter_drop_last(r, has_key(column, k));
        assert(with_key(r, column, k).len() > 0);
        assert(with_key(r1, column, k) == with_key(r2, column, k));
        let e = if r1.len() == 0 { r1 } else { r2 };
        e.lemma_filter_len(has_key(column, k));
        assert(false);
        return;
    }
    let k1 = sort_key(r1.last(), column);
    let k2 = sort_key(r2.last(), column);
    // The last keys agree: each occurs in the other sequence, which ends with
    // the key that comes last in the order.
    assert(k1 == k2) by {
        lemma_filter_drop_last(r1, has_key(column, k1));
        lemma_filter_drop_last(r2, has_key(column, k2));
        assert(with_key(r1, column, k1) == with_key(r2, column, k1));
        assert(with_key(r1, column, k2) == with_key(r2, column, k2));
        let w1 = with_key(r2, column, k1);
        assert(w1.contains(r1.last()));
        r2.lemma_filter_contains_rev(has_key(column, k1), r1.last());
        let i1 = choose|i: int| 0 <= i < r2.len() && r2[i] == r1.last();
        if i1 < r2.len() - 1 {
            assert(in_order(sort_key(r2[i1], column), sort_key(r2[r2.len() - 1], column), ascending));
        }
        let w2 = with_key(r1, column, k2);
        assert(w2.contains(r2.last()));
        r1.lemma_filter_contains_rev(has_key(column, k2), r2.last());
        let i2 = choose|i: int| 0 <= i < r1.len() && r1[i] == r2.last();
        if i2 < r1.len() - 1 {
            assert(in_order(sort_key(r1[i2], column), sort_key(r1[r1.len() - 1], column), ascending));
        }
    }
    lemma_filter_drop_last(r1, has_key(column, k1));
    lemma_filter_drop_last(r2, has_key(column, k1));
    assert(with_key(r1, column, k1) == with_key(r2, column, k1));
    assert(r1.last() == with_key(r1, column, k1).last());
    assert(r1.last() == r2.last());
    let d1 = r1.drop_last();
    let d2 = r2.drop_last();
    assert forall|k: u64| #[trigger] with_key(d1, column, k) == with_key(d2, column, k) by {
        lemma_filter_drop_last(r1, has_key(column, k));
        lemma_filter_drop_last(r2, has_key(column, k));
        assert(with_key(r1, column, k) == with_key(r2, column, k));
        if k == k1 {
            assert(with_key(d1, column, k) =~= with_key(r1, column, k).drop_last());
            assert(with_key(d2, column, k) =~= with_key(r2, column, k).drop_last());
        }
    }
    assert forall|i: int, j: int| 0 <= i < j < d1.len() implies in_order(#[trigger] sort_key(d1[i], column), #[trigger] sort_key(d1[j], column), ascending) by {
        assert(d1[i] == r1[i] && d1[j] == r1[j]);
    }
    assert forall|i: int, j: int| 0 <= i < j < d2.len() implies in_order(#[trigger] sort_key(d2[i], column), #[trigger] sort_key(d2[j], column), ascending) by {
        assert(d2[i] == r2[i] && d2[j] == r2[j]);
    }
    lemma_same_runs_equal(d1, d2, column, ascending);
    assert(r1 =~= d1.push(r1.last()));
    assert(r2 =~= d2.push(r2.last()));
}

/// A stable sort has exactly one outcome: two sequences that are both `s`
/// stably sorted by the same settings are equal.
pub proof fn lemma_stable_sort_is_unique(r1: Seq<ProcessInfo>, r2: Seq<ProcessInfo>, s: Seq<ProcessInfo>, column: SortColumn, ascending: bool)
    requires
        stably_sorted(r1, s, column, ascending),
        stably_sorted(r2, s, column, ascending),
    ensures
        r1 == r2,
{
    assert forall|k: u64| #[trigger] with_key(r1, column, k) == with_key(r2, column, k) by {
        assert(with_key(r1, column, k) == with_key(s, column, k));
        assert(with_key(r2, column, k) == with_key(s, column, k));
    }
    lemma_same_runs_equal(r1, r2, column, ascending);
}

/// The key of a process in a column.
fn key_of(p: &ProcessInfo, column: SortColumn) -> (k: u64)
    ensures
        k == sort_key(*p, column),
{
    match column {
        SortColumn::Cpu => {
            let bits = p.cpu_percent_bits;
            let magnitude = bits % 0x8000_0000_0000_0000;
            if bits >= 0x8000_0000_0000_0000 && magnitude != 0 {
                0x7fff_ffff_ffff_ffff - magnitude
            } else {
                0x8000_0000_0000_0000 + magnitude
            }
        },
        SortColumn::Memory => p.memory_bytes,
    }
}

/// Where `x` goes in the ordered sequence `out`: after every process that may
/// stand before it, so after those that share its key.
fn insertion_point(out: &Vec<ProcessInfo>, kx: u64, column: SortColumn, ascending: bool) -> (pos: usize)
    requires
        is_ordered(out@, column, ascending),
    ensures
        pos <= out@.len(),
        forall|j: int| 0 <= j < pos ==> in_order(#[trigger] sort_key(out@[j], column), kx, ascending),
        forall|j: int| pos <= j < out@.len() ==> !in_order(#[trigger] sort_key(out@[j], column), kx, ascending),
{
    let n = out.len();
    let mut p: usize = 0;
    while p < n
        invariant
            n == out@.len(),
            p <= n,
            is_ordered(out@, column, ascending),
            forall|j: int| 0 <= j < p ==> in_order(#[trigger] sort_key(out@[j], column), kx, ascending),
        decreases n - p,
    {
        let k = key_of(&out[p], column);
        let fits = if ascending { k <= kx } else { k >= kx };
        if !fits {
            assert forall|j: int| p <= j < out@.len() implies !in_order(#[trigger] sort_key(out@[j], column), kx, ascending) by {
                if j > p {
                    assert(in_order(sort_key(out@[p as int], column), sort_key(out@[j], column), ascending));
                }
            }
            return p;
        }
        p = p + 1;
    }
    p
}

/// Sorts processes by `column`, largest first unless `ascending`, keeping the
/// order of processes with equal keys. A list of two or more with a NaN CPU
/// share cannot be ordered by CPU share.
pub fn sort_processes(v: &mut Vec<ProcessInfo>, column: SortColumn, ascending: bool)
    requires
        orderable(old(v)@, column),
    ensures
        stably_sorted(final(v)@, old(v)@, column, ascending),
        final(v)@.len() == old(v)@.len(),
        final(v)@.to_multiset() == old(v)@.to_multiset(),
{
    let n = v.len();
    let mut out: Vec<ProcessInfo> = Vec::new();
    let mut i: usize = 0;
    assert(v@.take(0) =~= out@);
    while i < n
        invariant
            n == v@.len(),
            v@ == old(v)@,
            i <= n,
            stably_sorted(out@, v@.take(i as int), column, ascending),
            out@.len() == i,
            out@.to_multiset() == v@.take(i as int).to_multiset(),
        decreases n - i,
    {
        let x = clone_process_info(&v[i]);
        let kx = key_of(&x, column);
        let pos = insertion_point(&out, kx, column, ascending);
        let ghost prev = out@;
        out.insert(pos, x);
        proof {
            let s = v@.take(i as int);
            assert(v@.take(i + 1) =~= s.push(x));
            broadcast use vstd::seq_lib::group_to_multiset_ensures;
            assert(out@.to_multiset() == prev.to_multiset().insert(x));
            assert(s.push(x).to_multiset() == s.to_multiset().insert(x));
            assert forall|a: int, b: int| 0 <= a < b < out@.len() implies in_order(
                #[trigger] sort_key(out@[a], column),
                #[trigger] sort_key(out@[b], column),
                ascending,
            ) by {
                if b < pos {
                    assert(out@[a] == prev[a] && out@[b] == prev[b]);
                } else if b == pos {
                    assert(out@[a] == prev[a]);
                } else if a < pos {
                    assert(out@[a] == prev[a] && out@[b] == prev[b - 1]);
                    assert(in_order(sort_key(prev[a], column), kx, ascending));
                    assert(!in_order(sort_key(prev[b - 1], column), kx, ascending));
                } else if a == pos {
                    assert(out@[b] == prev[b - 1]);
                    assert(!in_order(sort_key(prev[b - 1], column), kx, ascending));
                } else {
                    assert(out@[a] == prev[a - 1] && out@[b] == prev[b - 1]);
                }
            }
            assert forall|k: u64| #[trigger] with_key(out@, column, k) == with_key(v@.take(i + 1), column, k) by {
                let pred = has_key(column, k);
                if pred(x) {
                    assert forall|j: int| pos <= j < prev.len() implies !pred(#[trigger] prev[j]) by {
                        assert(!in_order(sort_key(prev[j], column), kx, ascending));
                    }
                }
                lemma_filter_insert(prev, pos as int, x, pred);
                lemma_filter_push(s, x, pred);
                assert(with_key(prev, column, k) == with_key(s, column, k));
            }
        }
        i = i + 1;
    }
    assert(v@.take(n as int) =~= v@);
    *v = out;
}

/// Whether process `p` matches the search query: the lowercased query occurs
/// in the lowercased name, in the lowercased command line, or in the decimal
/// process id.
pub open spec fn matches_query(p: ProcessInfo, query: Seq<char>) -> bool {
    let q = lowercase(query);
    ||| occurs_in(q, lowercase(p.name@))
    ||| occurs_in(q, lowercase(p.command@))
    ||| occurs_in(q, decimal(p.pid as nat))
}

/// The predicate "matches `query`".
pub open spec fn matching(query: Seq<char>) -> spec_fn(ProcessInfo) -> bool {
    |p: ProcessInfo| matches_query(p, query)
}

/// Whether the name and the command line of `p` are ASCII.
pub open spec fn ascii_process(p: ProcessInfo) -> bool {
    all_ascii(p.name@) && all_ascii(p.command@)
}

/// Matching spelled out for ASCII text: the query with `A`..=`Z` lowered
/// occurs in the name or the command line with `A`..=`Z` lowered, or in the
/// decimal process id.
pub open spec fn ascii_matches_query(p: ProcessInfo, query: Seq<char>) -> bool {
    let q = ascii_lowercase(query);
    ||| occurs_in(q, ascii_lowercase(p.name@))
    ||| occurs_in(q, ascii_lowercase(p.command@))
    ||| occurs_in(q, decimal(p.pid as nat))
}

/// Whether `p` matches a query whose lowercase characters are `q`.
fn process_matches(p: &ProcessInfo, q: &Vec<char>) -> (b: bool)
    ensures
        b == (occurs_in(q@, lowercase(p.name@)) || occurs_in(q@, lowercase(p.command@))
            || occurs_in(q@, decimal(p.pid as nat))),
        ascii_process(*p) ==> b == (occurs_in(q@, ascii_lowercase(p.name@))
            || occurs_in(q@, ascii_lowercase(p.command@)) || occurs_in(q@, decimal(p.pid as nat))),
{
    let name = to_lowercase(p.name.as_str());
    if contains_chars(&chars_of(name.as_str()), q) {
        return true;
    }
    let command = to_lowercase(p.command.as_str());
    if contains_chars(&chars_of(command.as_str()), q) {
        return true;
    }
    contains_chars(&decimal_chars(p.pid), q)
}

/// Copies of the processes of `all` that match `query`, in their order.
pub fn filter_processes(all: &Vec<ProcessInfo>, query: &str) -> (r: Vec<ProcessInfo>)
    ensures
        r@ == all@.filter(matching(query@)),
        query@.len() == 0 ==> r@ == all@,
        all_ascii(query@) ==> forall|i: int|
            0 <= i < all@.len() && ascii_process(#[trigger] all@[i])
                ==> (matches_query(all@[i], query@) <==> ascii_matches_query(all@[i], query@)),
{
    let lowered = to_lowercase(query);
    proof {
        if query@.len() == 0 {
            lemma_empty_query_matches_all(all@, query@);
        }
    }
    let q = chars_of(lowered.as_str());
    let n = all.len();
    let mut r: Vec<ProcessInfo> = Vec::new();
    let mut i: usize = 0;
    assert(all@.take(0) =~= Seq::<ProcessInfo>::empty());
    reveal_with_fuel(Seq::filter, 1);
    while i < n
        invariant
            n == all@.len(),
            i <= n,
            q@ == lowercase(query@),
            all_ascii(query@) ==> q@ == ascii_lowercase(query@),
            r@ == all@.take(i as int).filter(matching(query@)),
            all_ascii(query@) ==> forall|j: int|
                0 <= j < i && ascii_process(#[trigger] all@[j])
                    ==> (matches_query(all@[j], query@) <==> ascii_matches_query(all@[j], query@)),
        decreases n - i,
    {
        let ghost before = all@.take(i as int);
        proof {
            assert(all@.take(i + 1) =~= before.push(all@[i as int]));
            lemma_filter_push(before, all@[i as int], matching(query@));
        }
        if process_matches(&all[i], &q) {
            r.push(clone_process_info(&all[i]));
        }
        i = i + 1;
    }
    assert(all@.take(n as int) =~= all@);
    r
}

/// Search ignores case: two queries that lowercase alike match the same
/// processes.
pub proof fn lemma_search_ignores_case(p: ProcessInfo, q1: Seq<char>, q2: Seq<char>)
    requires
        lowercase(q1) == lowercase(q2),
    ensures
        matches_query(p, q1) == matches_query(p, q2),
{
}

/// Occurrence is transitive: what occurs in a string that occurs in a
/// third string occurs in the third.
proof fn lemma_occurs_in_transitive(a: Seq<char>, b: Seq<char>, c: Seq<char>)
    requires
        occurs_in(a, b),
        occurs_in(b, c),
    ensures
        occurs_in(a, c),
{
    let i = choose|i: int| 0 <= i && i + a.len() <= b.len() && #[trigger] b.subrange(i, i + a.len()) == a;
    let j = choose|j: int| 0 <= j && j + b.len() <= c.len() && #[trigger] c.subrange(j, j + b.len()) == b;
    assert(c.subrange(j + i, j + i + a.len()) =~= a) by {
        assert forall|k: int| 0 <= k < a.len() implies c.subrange(j + i, j + i + a.len())[k] == a[k] by {
            assert(b.subrange(i, i + a.len())[k] == b[i + k]);
            assert(c.subrange(j, j + b.len())[i + k] == c[j + i + k]);
        }
    }
}

/// A longer query never lists more: when the lowercased `q1` occurs in the
/// lowercased `q2` (as when `q2` is `q1` with characters typed after it),
/// every process matching `q2` matches `q1`, and every process the picker
/// would list for `q2` it lists for `q1`.
pub proof fn lemma_longer_query_never_widens(all: Seq<ProcessInfo>, q1: Seq<char>, q2: Seq<char>, p: ProcessInfo)
    requires
        occurs_in(lowercase(q1), lowercase(q2)),
    ensures
        matches_query(p, q2) ==> matches_query(p, q1),
        all.filter(matching(q2)).contains(p) ==> all.filter(matching(q1)).contains(p),
{
    broadcast use vstd::seq_lib::group_filter_ensures;
    let l1 = lowercase(q1);
    let l2 = lowercase(q2);
    if occurs_in(l2, lowercase(p.name@)) {
        lemma_occurs_in_transitive(l1, l2, lowercase(p.name@));
    }
    if occurs_in(l2, lowercase(p.command@)) {
        lemma_occurs_in_transitive(l1, l2, lowercase(p.command@));
    }
    if occurs_in(l2, decimal(p.pid as nat)) {
        lemma_occurs_in_transitive(l1, l2, decimal(p.pid as nat));
    }
    if all.filter(matching(q2)).contains(p) {
        all.lemma_filter_contains_rev(matching(q2), p);
        let k = choose|k: int| 0 <= k < all.filter(matching(q2)).len() && all.filter(matching(q2))[k] == p;
        assert(matching(q2)(all.filter(matching(q2))[k]));
        let i = choose|i: int| 0 <= i < all.len() && all[i] == p;
        assert(all.filter(matching(q1)).contains(all[i]));
    }
}

/// The empty query matches every process: lowercasing it leaves it empty,
/// and the empty string occurs in every string.
pub proof fn lemma_empty_query_matches_all(all: Seq<ProcessInfo>, query: Seq<char>)
    requires
        query.len() == 0,
        lowercase(query).len() == 0,
    ensures
        all.filter(matching(query)) == all,
    decreases all.len(),
{
    reveal_with_fuel(Seq::filter, 1);
    if all.len() > 0 {
        lemma_empty_query_matches_all(all.drop_last(), query);
        let p = all.last();
        let e = lowercase(query);
        let hay = lowercase(p.name@);
        assert(hay.subrange(0int, 0int + e.len()) =~= e);
        assert(occurs_in(e, hay));
        assert(matches_query(p, query));
        assert(all.drop_last().push(p) =~= all);
    }
}

/// A process is in a stable sort of `s` exactly when it is in `s`.
pub proof fn lemma_stable_sort_keeps_members(r: Seq<ProcessInfo>, s: Seq<ProcessInfo>, column: SortColumn, ascending: bool, p: ProcessInfo)
    requires
        stably_sorted(r, s, column, ascending),
    ensures
        r.contains(p) <==> s.contains(p),
{
    broadcast use vstd::seq_lib::group_filter_ensures;
    let k = sort_key(p, column);
    let pred = has_key(column, k);
    assert(with_key(r, column, k) == with_key(s, column, k));
    if r.contains(p) {
        let i = choose|i: int| 0 <= i < r.len() && r[i] == p;
        assert(r.filter(pred).contains(r[i]));
        s.lemma_filter_contains_rev(pred, p);
    }
    if s.contains(p) {
        let i = choose|i: int| 0 <= i < s.len() && s[i] == p;
        assert(s.filter(pred).contains(s[i]));
        r.lemma_filter_contains_rev(pred, p);
    }
}

/// The picker lists exactly the processes that match the query: a process
/// is in a stable sort of the matching processes of `all` exactly when it is
/// one of `all` and matches.
pub proof fn lemma_listed_iff_matching(r: Seq<ProcessInfo>, all: Seq<ProcessInfo>, query: Seq<char>, column: SortColumn, ascending: bool, p: ProcessInfo)
    requires
        stably_sorted(r, all.filter(matching(query)), column, ascending),
    ensures
        r.contains(p) <==> (all.contains(p) && matches_query(p, query)),
{
    broadcast use vstd::seq_lib::group_filter_ensures;
    lemma_stable_sort_keeps_members(r, all.filter(matching(query)), column, ascending, p);
    if all.filter(matching(query)).contains(p) {
        all.lemma_filter_contains_rev(matching(query), p);
        let i = choose|i: int| 0 <= i < all.filter(matching(query)).len() && all.filter(matching(query))[i] == p;
        assert(matching(query)(all.filter(matching(query))[i]));
    }
    if all.contains(p) && matches_query(p, query) {
        let i = choose|i: int| 0 <= i < all.len() && all[i] == p;
        assert(all.filter(matching(query)).contains(all[i]));
    }
}

} // verus!
