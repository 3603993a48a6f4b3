//! Lists of rows: finding one, picking and ordering some, and taking some away.
use vstd::prelude::*;

use crate::order::{insert_by, place, place_list, sorted};

verus! {

/// The place of the first row from `i` on that is wanted.
pub open spec fn first_place<T>(rows: Seq<T>, wanted: spec_fn(T) -> bool, i: int) -> Option<int>
    decreases rows.len() - i,
{
    if i < 0 || i >= rows.len() {
        None
    } else if wanted(rows[i]) {
        Some(i)
    } else {
        first_place(rows, wanted, i + 1)
    }
}

/// The place that is found is the first with a wanted row, and none is found only where there is
/// none.
pub proof fn law_first_place<T>(rows: Seq<T>, wanted: spec_fn(T) -> bool, i: int)
    requires
        0 <= i,
    ensures
        match first_place(rows, wanted, i) {
            Some(k) => i <= k < rows.len() && wanted(rows[k]) && forall|j: int|
                i <= j < k ==> !wanted(#[trigger] rows[j]),
            None => forall|j: int| i <= j < rows.len() ==> !wanted(#[trigger] rows[j]),
        },
    decreases rows.len() - i,
{
    if i < rows.len() && !wanted(rows[i]) {
        law_first_place(rows, wanted, i + 1);
    }
}

/// Finds the first wanted row.
pub fn find_row<T, F: Fn(&T) -> bool>(
    rows: &Vec<T>,
    is: F,
    Ghost(wanted): Ghost<spec_fn(T) -> bool>,
) -> (r: Option<usize>)
    requires
        forall|x: &T| #[trigger] is.requires((x,)),
        forall|x: &T, b: bool| #[trigger] is.ensures((x,), b) ==> b == wanted(*x),
    ensures
        match r {
            Some(k) => k < rows.len() && first_place(rows@, wanted, 0) == Some(k as int) && wanted(
                rows@[k as int],
            ),
            None => first_place(rows@, wanted, 0) is None,
        },
{
    let mut i: usize = 0;
    while i < rows.len()
        invariant
            i <= rows.len(),
            forall|x: &T| #[trigger] is.requires((x,)),
            forall|x: &T, b: bool| #[trigger] is.ensures((x,), b) ==> b == wanted(*x),
            first_place(rows@, wanted, 0) == first_place(rows@, wanted, i as int),
        decreases rows.len() - i,
    {
        if is(&rows[i]) {
            return Some(i);
        }
        i += 1;
    }
    None
}

/// The places of the wanted rows.
pub open spec fn picked<T>(rows: Seq<T>, wanted: spec_fn(T) -> bool) -> Seq<int>
    decreases rows.len(),
{
    if rows.len() == 0 {
        Seq::empty()
    } else if wanted(rows.last()) {
        picked(rows.drop_last(), wanted).push(rows.len() - 1)
    } else {
        picked(rows.drop_last(), wanted)
    }
}

/// Each place that is picked is that of a wanted row, and each wanted row is picked.
pub proof fn law_picked<T>(rows: Seq<T>, wanted: spec_fn(T) -> bool)
    ensures
        forall|k: int|
            #[trigger] picked(rows, wanted).contains(k) <==> 0 <= k < rows.len() && wanted(rows[k]),
    decreases rows.len(),
{
    if rows.len() > 0 {
        let rest = picked(rows.drop_last(), wanted);
        law_picked(rows.drop_last(), wanted);
        assert forall|k: int|
            #[trigger] picked(rows, wanted).contains(k) <==> 0 <= k < rows.len() && wanted(
                rows[k],
            ) by {
            assert(rest.contains(k) <==> 0 <= k < rows.len() - 1 && wanted(rows.drop_last()[k]));
            if wanted(rows.last()) {
                let all = rest.push(rows.len() - 1);
                if all.contains(k) {
                    let j = choose|j: int| 0 <= j < all.len() && all[j] == k;
                    if j < rest.len() {
                        assert(rest[j] == k);
                        assert(rest.contains(k));
                    }
                }
                if rest.contains(k) {
                    let j = choose|j: int| 0 <= j < rest.len() && rest[j] == k;
                    assert(all[j] == k);
                }
                assert(all[rest.len() as int] == rows.len() - 1);
            }
        }
    }
}

/// The places of the wanted rows.
pub fn pick_rows<T, F: Fn(&T) -> bool>(
    rows: &Vec<T>,
    is: F,
    Ghost(wanted): Ghost<spec_fn(T) -> bool>,
) -> (r: Vec<usize>)
    requires
        forall|x: &T| #[trigger] is.requires((x,)),
        forall|x: &T, b: bool| #[trigger] is.ensures((x,), b) ==> b == wanted(*x),
    ensures
        place_list(r@) == picked(rows@, wanted),
        r.len() <= rows.len(),
        forall|k: int| 0 <= k < r.len() ==> #[trigger] r@[k] < rows.len(),
{
    let mut out: Vec<usize> = Vec::new();
    let mut i: usize = 0;
    assert(place_list(out@) =~= picked(rows@.take(0), wanted));
    while i < rows.len()
        invariant
            i <= rows.len(),
            forall|x: &T| #[trigger] is.requires((x,)),
            forall|x: &T, b: bool| #[trigger] is.ensures((x,), b) ==> b == wanted(*x),
            out.len() <= i,
            forall|k: int| 0 <= k < out.len() ==> #[trigger] out@[k] < rows.len(),
            place_list(out@) == picked(rows@.take(i as int), wanted),
        decreases rows.len() - i,
    {
        let ghost before = place_list(out@);
        proof {
            assert(rows@.take(i + 1).drop_last() =~= rows@.take(i as int));
            assert(rows@.take(i + 1).last() == rows@[i as int]);
        }
        if is(&rows[i]) {
            out.push(i);
            assert(place_list(out@) =~= before.push(i as int));
        }
        i += 1;
    }
    assert(rows@.take(rows.len() as int) =~= rows@);
    out
}

/// Places in the order that a comparison of them gives.
pub fn order_picked<F: Fn(usize, usize) -> bool>(
    list: &Vec<usize>,
    n: usize,
    goes: F,
    Ghost(before): Ghost<spec_fn(int, int) -> bool>,
) -> (r: Vec<usize>)
    requires
        forall|i: int| 0 <= i < list.len() ==> #[trigger] list@[i] < n,
        forall|a: usize, b: usize| a < n && b < n ==> #[trigger] goes.requires((a, b)),
        forall|a: usize, b: usize, c: bool|
            a < n && b < n && #[trigger] goes.ensures((a, b), c) ==> c == before(
                a as int,
                b as int,
            ),
    ensures
        place_list(r@) == sorted(place_list(list@), before),
        r.len() == list.len(),
        forall|i: int| 0 <= i < r.len() ==> #[trigger] r@[i] < n,
{
    let ghost all = place_list(list@);
    let mut out: Vec<usize> = Vec::new();
    let mut i: usize = 0;
    assert(place_list(out@) =~= sorted(all.take(0), before));
    while i < list.len()
        invariant
            i <= list.len(),
            all == place_list(list@),
            forall|k: int| 0 <= k < list.len() ==> #[trigger] list@[k] < n,
            forall|a: usize, b: usize| a < n && b < n ==> #[trigger] goes.requires((a, b)),
            forall|a: usize, b: usize, c: bool|
                a < n && b < n && #[trigger] goes.ensures((a, b), c) ==> c == before(
                    a as int,
                    b as int,
                ),
            out.len() == i,
            forall|k: int| 0 <= k < out.len() ==> #[trigger] out@[k] < n,
            place_list(out@) == sorted(all.take(i as int), before),
        decreases list.len() - i,
    {
        let x = list[i];
        let ghost so_far = place_list(out@);
        let mut k: usize = out.len();
        while k > 0 && goes(x, out[k - 1])
            invariant
                x < n,
                k <= out.len(),
                forall|a: usize, b: usize| a < n && b < n ==> #[trigger] goes.requires((a, b)),
                forall|a: usize, b: usize, c: bool|
                    a < n && b < n && #[trigger] goes.ensures((a, b), c) ==> c == before(
                        a as int,
                        b as int,
                    ),
                so_far == place_list(out@),
                forall|k: int| 0 <= k < out.len() ==> #[trigger] out@[k] < n,
                place(so_far, x as int, before, so_far.len() as int) == place(
                    so_far,
                    x as int,
                    before,
                    k as int,
                ),
            decreases k,
        {
            assert(so_far[k - 1] == out@[k - 1]);
            k -= 1;
        }
        proof {
            if k > 0 {
                assert(so_far[k - 1] == out@[k - 1]);
            }
            assert(all.take(i + 1).drop_last() =~= all.take(i as int));
            assert(all.take(i + 1).last() == x);
        }
        let ghost old_out = out@;
        out.insert(k, x);
        proof {
            assert(place_list(out@) =~= so_far.insert(k as int, x as int));
            assert(place_list(out@) == insert_by(so_far, x as int, before));
            assert forall|j: int| 0 <= j < out@.len() implies #[trigger] out@[j] < n by {
                if j < k {
                    assert(out@[j] == old_out[j]);
                } else if j > k {
                    assert(out@[j] == old_out[j - 1]);
                }
            }
        }
        i += 1;
    }
    assert(all.take(all.len() as int) =~= all);
    out
}

/// The rows that are left once the unwanted ones are gone.
pub open spec fn rows_without<T>(rows: Seq<T>, unwanted: spec_fn(T) -> bool) -> Seq<T>
    decreases rows.len(),
{
    if rows.len() == 0 {
        rows
    } else if unwanted(rows.last()) {
        rows_without(rows.drop_last(), unwanted)
    } else {
        rows_without(rows.drop_last(), unwanted).push(rows.last())
    }
}

/// No unwanted row is left, and every other row is.
pub proof fn law_rows_without<T>(rows: Seq<T>, unwanted: spec_fn(T) -> bool)
    ensures
        forall|x: T|
            #[trigger] rows_without(rows, unwanted).contains(x) <==> rows.contains(x) && !unwanted(
                x,
            ),
    decreases rows.len(),
{
    if rows.len() > 0 {
        let head = rows.drop_last();
        let rest = rows_without(head, unwanted);
        law_rows_without(head, unwanted);
        assert forall|x: T|
            #[trigger] rows_without(rows, unwanted).contains(x) <==> rows.contains(x) && !unwanted(
                x,
            ) by {
            assert(rest.contains(x) <==> head.contains(x) && !unwanted(x));
            assert(rows =~= head.push(rows.last()));
            lemma_push_contains(head, rows.last(), x);
            lemma_push_contains(rest, rows.last(), x);
        }
    } else {
        assert(rows_without(rows, unwanted) == rows);
    }
}

/// A list with one more item holds that item and all that it held.
pub proof fn lemma_push_contains<T>(s: Seq<T>, a: T, x: T)
    ensures
        s.push(a).contains(x) <==> s.contains(x) || x == a,
{
    let p = s.push(a);
    if s.contains(x) {
        let j = choose|j: int| 0 <= j < s.len() && s[j] == x;
        assert(p[j] == x);
    }
    assert(p[s.len() as int] == a);
    if p.contains(x) {
        let j = choose|j: int| 0 <= j < p.len() && p[j] == x;
        if j < s.len() {
            assert(s[j] == x);
        }
    }
}

/// Takes the unwanted rows away; the others stay as they are.
pub fn remove_rows<T, F: Fn(&T) -> bool>(
    rows: &mut Vec<T>,
    goes: F,
    Ghost(unwanted): Ghost<spec_fn(T) -> bool>,
)
    requires
        forall|x: &T| #[trigger] goes.requires((x,)),
        forall|x: &T, b: bool| #[trigger] goes.ensures((x,), b) ==> b == unwanted(*x),
    ensures
        final(rows)@ == rows_without(old(rows)@, unwanted),
{
    let ghost all = rows@;
    let mut n: usize = rows.len();
    let ghost mut tail = Seq::<T>::empty();
    assert(all.take(n as int) =~= all);
    assert(rows_without(all, unwanted) =~= rows_without(all.take(n as int), unwanted) + tail);
    while n > 0
        invariant
            n <= rows.len(),
            n <= all.len(),
            all == old(rows)@,
            forall|x: &T| #[trigger] goes.requires((x,)),
            forall|x: &T, b: bool| #[trigger] goes.ensures((x,), b) ==> b == unwanted(*x),
            rows@ =~= all.take(n as int) + tail,
            rows_without(all, unwanted) == rows_without(all.take(n as int), unwanted) + tail,
        decreases n,
    {
        let ghost was = tail;
        proof {
            assert(all.take(n as int).drop_last() =~= all.take(n - 1));
            assert(all.take(n as int).last() == all[n - 1]);
            assert(rows@[n - 1] == all[n - 1]);
        }
        if goes(&rows[n - 1]) {
            let _ = rows.remove(n - 1);
            assert(rows@ =~= all.take(n - 1) + tail);
        } else {
            proof {
                tail = seq![all[n - 1]] + was;
                assert(rows@ =~= all.take(n - 1) + tail);
                assert(rows_without(all.take(n - 1), unwanted).push(all[n - 1]) + was
                    =~= rows_without(all.take(n - 1), unwanted) + tail);
            }
        }
        n -= 1;
    }
    assert(rows@ =~= rows_without(all, unwanted));
}

} // verus!
