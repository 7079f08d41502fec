//! The constraints that two sets of constraints make together.

use vstd::prelude::*;
use vstd::utf8::encode_utf8;

use crate::params::constraints::{
    contains_int, first_fault, first_fault_none, float_among, float_item_complaint,
    inner_int_complaint, int_item_complaint, list_item_complaint, text_item_complaint,
    text_list_complaint, value_complaint,
};
use crate::params::floats::{
    float_eq, float_key, float_lt, is_nan, less, nan_bits, FloatNumber, NumberView, SIGN_BIT,
};
use crate::params::template::{
    bits_of, numbers, opt_number, opt_texts, Constraints, ConstraintsView, FloatBounds,
    FloatBoundsView, IntBounds, IntBoundsView, LengthBounds,
};
use crate::params::values::{copy_ints, ValueView};
use crate::text::{clone_texts, contains_text, first_occurrences, first_occurrences_facts, texts};

verus! {

/// The higher of two lower bounds; a missing one does not count.
pub open spec fn higher_int(cur: Option<i64>, new: Option<i64>) -> Option<i64> {
    match (cur, new) {
        (Some(c), Some(n)) => Some(
            if c < n {
                n
            } else {
                c
            },
        ),
        (None, _) => new,
        (_, None) => cur,
    }
}

/// The lower of two upper bounds; a missing one does not count.
pub open spec fn lower_int(cur: Option<i64>, new: Option<i64>) -> Option<i64> {
    match (cur, new) {
        (Some(c), Some(n)) => Some(
            if n < c {
                n
            } else {
                c
            },
        ),
        (None, _) => new,
        (_, None) => cur,
    }
}

/// The higher of two least lengths; a missing one does not count.
pub open spec fn higher_length(cur: Option<usize>, new: Option<usize>) -> Option<usize> {
    match (cur, new) {
        (Some(c), Some(n)) => Some(
            if c < n {
                n
            } else {
                c
            },
        ),
        (None, _) => new,
        (_, None) => cur,
    }
}

/// The lower of two greatest lengths; a missing one does not count.
pub open spec fn lower_length(cur: Option<usize>, new: Option<usize>) -> Option<usize> {
    match (cur, new) {
        (Some(c), Some(n)) => Some(
            if n < c {
                n
            } else {
                c
            },
        ),
        (None, _) => new,
        (_, None) => cur,
    }
}

/// The higher of two lower bounds; a missing one, or what is no number, does not count.
pub open spec fn higher_number(
    cur: Option<NumberView>,
    new: Option<NumberView>,
) -> Option<NumberView> {
    match (cur, new) {
        (Some(c), Some(n)) => Some(
            if is_nan(c.bits) || float_lt(c.bits, n.bits) {
                n
            } else {
                c
            },
        ),
        (None, _) => new,
        (_, None) => cur,
    }
}

/// The lower of two upper bounds; a missing one, or what is no number, does not count.
pub open spec fn lower_number(
    cur: Option<NumberView>,
    new: Option<NumberView>,
) -> Option<NumberView> {
    match (cur, new) {
        (Some(c), Some(n)) => Some(
            if is_nan(c.bits) || float_lt(n.bits, c.bits) {
                n
            } else {
                c
            },
        ),
        (None, _) => new,
        (_, None) => cur,
    }
}

/// What one list shares with another, in the order of the first.
pub open spec fn kept<A>(cur: Seq<A>, new: Seq<A>) -> Seq<A> {
    cur.filter(|x: A| new.contains(x))
}

/// The allowed values that two lists make together: where both are there, what is kept of the
/// first; a list that only comes second is taken over with every value once.
pub open spec fn common<A>(cur: Option<Seq<A>>, new: Option<Seq<A>>) -> Option<Seq<A>> {
    match (cur, new) {
        (Some(c), Some(n)) => Some(kept(c, n)),
        (None, Some(n)) => Some(first_occurrences(n)),
        (_, None) => cur,
    }
}

/// The numbers of one list whose bits another has too, in the order of the first.
pub open spec fn kept_numbers(cur: Seq<NumberView>, new: Seq<NumberView>) -> Seq<NumberView> {
    cur.filter(|n: NumberView| bits_of(new).contains(n.bits))
}

/// The allowed floats that two lists make together: where both are there, what is kept of the
/// first; else the one that is there.
pub open spec fn common_floats(
    cur: Option<Seq<NumberView>>,
    new: Option<Seq<NumberView>>,
) -> Option<Seq<NumberView>> {
    match (cur, new) {
        (Some(c), Some(n)) => Some(kept_numbers(c, n)),
        (None, _) => new,
        (_, None) => cur,
    }
}

/// The limits that two limits on integers make together.
pub open spec fn tightened_ints(cur: IntBoundsView, new: IntBoundsView) -> IntBoundsView {
    IntBoundsView {
        min: higher_int(cur.min, new.min),
        max: lower_int(cur.max, new.max),
        allowed: common(cur.allowed, new.allowed),
    }
}

/// The limits that two limits on floats make together.
pub open spec fn tightened_floats(cur: FloatBoundsView, new: FloatBoundsView) -> FloatBoundsView {
    FloatBoundsView {
        min: higher_number(cur.min, new.min),
        max: lower_number(cur.max, new.max),
        allowed: common_floats(cur.allowed, new.allowed),
    }
}

/// The limits that two limits on a length make together.
pub open spec fn tightened_length(cur: LengthBounds, new: LengthBounds) -> LengthBounds {
    LengthBounds { min: higher_length(cur.min, new.min), max: lower_length(cur.max, new.max) }
}

/// The constraints that two constraints make together.
pub open spec fn tightened(cur: ConstraintsView, new: ConstraintsView) -> ConstraintsView {
    ConstraintsView {
        ints: tightened_ints(cur.ints, new.ints),
        floats: tightened_floats(cur.floats, new.floats),
        length: tightened_length(cur.length, new.length),
        allowed_texts: common(cur.allowed_texts, new.allowed_texts),
        item_ints: tightened_ints(cur.item_ints, new.item_ints),
        item_floats: tightened_floats(cur.item_floats, new.item_floats),
        item_length: tightened_length(cur.item_length, new.item_length),
        item_allowed_texts: common(cur.item_allowed_texts, new.item_allowed_texts),
        item_item_ints: tightened_ints(cur.item_item_ints, new.item_item_ints),
    }
}

fn max_int(cur: Option<i64>, new: Option<i64>) -> (r: Option<i64>)
    ensures
        r == higher_int(cur, new),
{
    match (cur, new) {
        (Some(c), Some(n)) => if c < n {
            Some(n)
        } else {
            Some(c)
        },
        (None, _) => new,
        (_, None) => cur,
    }
}

fn min_int(cur: Option<i64>, new: Option<i64>) -> (r: Option<i64>)
    ensures
        r == lower_int(cur, new),
{
    match (cur, new) {
        (Some(c), Some(n)) => if n < c {
            Some(n)
        } else {
            Some(c)
        },
        (None, _) => new,
        (_, None) => cur,
    }
}

fn max_length(cur: Option<usize>, new: Option<usize>) -> (r: Option<usize>)
    ensures
        r == higher_length(cur, new),
{
    match (cur, new) {
        (Some(c), Some(n)) => if c < n {
            Some(n)
        } else {
            Some(c)
        },
        (None, _) => new,
        (_, None) => cur,
    }
}

fn min_length(cur: Option<usize>, new: Option<usize>) -> (r: Option<usize>)
    ensures
        r == lower_length(cur, new),
{
    match (cur, new) {
        (Some(c), Some(n)) => if n < c {
            Some(n)
        } else {
            Some(c)
        },
        (None, _) => new,
        (_, None) => cur,
    }
}

fn copy_number(n: &Option<FloatNumber>) -> (r: Option<FloatNumber>)
    ensures
        opt_number(r) == opt_number(*n),
{
    match n {
        Some(n) => Some(n.copy()),
        None => None,
    }
}

fn max_number(cur: &Option<FloatNumber>, new: &Option<FloatNumber>) -> (r: Option<FloatNumber>)
    ensures
        opt_number(r) == higher_number(opt_number(*cur), opt_number(*new)),
{
    if let (Some(c), Some(n)) = (cur, new) {
        if nan_bits(c.bits) || less(c.bits, n.bits) {
            Some(n.copy())
        } else {
            Some(c.copy())
        }
    } else if cur.is_none() {
        copy_number(new)
    } else {
        copy_number(cur)
    }
}

fn min_number(cur: &Option<FloatNumber>, new: &Option<FloatNumber>) -> (r: Option<FloatNumber>)
    ensures
        opt_number(r) == lower_number(opt_number(*cur), opt_number(*new)),
{
    if let (Some(c), Some(n)) = (cur, new) {
        if nan_bits(c.bits) || less(n.bits, c.bits) {
            Some(n.copy())
        } else {
            Some(c.copy())
        }
    } else if cur.is_none() {
        copy_number(new)
    } else {
        copy_number(cur)
    }
}

fn common_ints(cur: &Vec<i64>, new: &Vec<i64>) -> (r: Vec<i64>)
    ensures
        r@ == kept(cur@, new@),
{
    let mut r: Vec<i64> = Vec::new();
    let mut i: usize = 0;
    while i < cur.len()
        invariant
            i <= cur.len(),
            r@ == kept(cur@.take(i as int), new@),
        decreases cur.len() - i,
    {
        proof {
            assert(cur@.take(i + 1).drop_last() =~= cur@.take(i as int));
            reveal(Seq::filter);
        }
        if contains_int(new, cur[i]) {
            r.push(cur[i]);
        }
        i += 1;
    }
    assert(cur@.take(cur.len() as int) =~= cur@);
    r
}

fn distinct_ints(v: &Vec<i64>) -> (r: Vec<i64>)
    ensures
        r@ == first_occurrences(v@),
{
    let mut r: Vec<i64> = Vec::new();
    let mut i: usize = 0;
    while i < v.len()
        invariant
            i <= v.len(),
            r@ == first_occurrences(v@.take(i as int)),
        decreases v.len() - i,
    {
        assert(v@.take(i + 1).drop_last() =~= v@.take(i as int));
        if !contains_int(&r, v[i]) {
            r.push(v[i]);
        }
        i += 1;
    }
    assert(v@.take(v.len() as int) =~= v@);
    r
}

fn common_texts(cur: &Vec<String>, new: &Vec<String>) -> (r: Vec<String>)
    ensures
        texts(r@) == kept(texts(cur@), texts(new@)),
{
    let ghost all = texts(cur@);
    let mut r: Vec<String> = Vec::new();
    let mut i: usize = 0;
    while i < cur.len()
        invariant
            i <= cur.len(),
            all == texts(cur@),
            texts(r@) == kept(all.take(i as int), texts(new@)),
        decreases cur.len() - i,
    {
        proof {
            assert(all.take(i + 1).drop_last() =~= all.take(i as int));
            assert(all.take(i + 1).last() == cur@[i as int]@);
            reveal(Seq::filter);
        }
        if contains_text(new, cur[i].as_str()) {
            let ghost before = r@;
            r.push(cur[i].clone());
            assert(texts(r@) =~= texts(before).push(cur@[i as int]@));
        }
        i += 1;
    }
    assert(all.take(cur.len() as int) =~= all);
    r
}

fn distinct_texts(v: &Vec<String>) -> (r: Vec<String>)
    ensures
        texts(r@) == first_occurrences(texts(v@)),
{
    let ghost all = texts(v@);
    let mut r: Vec<String> = Vec::new();
    let mut i: usize = 0;
    assert(texts(r@) =~= first_occurrences(all.take(0)));
    while i < v.len()
        invariant
            i <= v.len(),
            all == texts(v@),
            texts(r@) == first_occurrences(all.take(i as int)),
        decreases v.len() - i,
    {
        assert(all.take(i + 1).drop_last() =~= all.take(i as int));
        assert(all.take(i + 1).last() == v@[i as int]@);
        if !contains_text(&r, v[i].as_str()) {
            let ghost before = r@;
            r.push(v[i].clone());
            assert(texts(r@) =~= texts(before).push(v@[i as int]@));
        }
        i += 1;
    }
    assert(all.take(v.len() as int) =~= all);
    r
}

fn contains_bits(v: &Vec<FloatNumber>, bits: u64) -> (found: bool)
    ensures
        found == bits_of(numbers(v@)).contains(bits),
{
    let ghost all = bits_of(numbers(v@));
    let mut i: usize = 0;
    while i < v.len()
        invariant
            i <= v.len(),
            all == bits_of(numbers(v@)),
            forall|k: int| 0 <= k < i ==> all[k] != bits,
        decreases v.len() - i,
    {
        assert(all[i as int] == v@[i as int].bits);
        if v[i].bits == bits {
            return true;
        }
        i += 1;
    }
    false
}

fn common_numbers(cur: &Vec<FloatNumber>, new: &Vec<FloatNumber>) -> (r: Vec<FloatNumber>)
    ensures
        numbers(r@) == kept_numbers(numbers(cur@), numbers(new@)),
{
    let ghost all = numbers(cur@);
    let mut r: Vec<FloatNumber> = Vec::new();
    let mut i: usize = 0;
    while i < cur.len()
        invariant
            i <= cur.len(),
            all == numbers(cur@),
            numbers(r@) == kept_numbers(all.take(i as int), numbers(new@)),
        decreases cur.len() - i,
    {
        proof {
            assert(all.take(i + 1).drop_last() =~= all.take(i as int));
            assert(all.take(i + 1).last() == cur@[i as int]@);
            reveal(Seq::filter);
        }
        if contains_bits(new, cur[i].bits) {
            let ghost before = r@;
            r.push(cur[i].copy());
            assert(numbers(r@) =~= numbers(before).push(cur@[i as int]@));
        }
        i += 1;
    }
    assert(all.take(cur.len() as int) =~= all);
    r
}

fn copy_numbers(v: &Vec<FloatNumber>) -> (r: Vec<FloatNumber>)
    ensures
        r@ == v@,
{
    let mut r: Vec<FloatNumber> = Vec::new();
    let mut i: usize = 0;
    while i < v.len()
        invariant
            i <= v.len(),
            r@ == v@.take(i as int),
        decreases v.len() - i,
    {
        r.push(v[i].copy());
        i += 1;
        assert(r@ =~= v@.take(i as int));
    }
    assert(r@ =~= v@);
    r
}

fn tighten_ints(cur: &IntBounds, new: &IntBounds) -> (r: IntBounds)
    ensures
        r@ == tightened_ints(cur@, new@),
{
    let allowed = if let (Some(c), Some(n)) = (&cur.allowed, &new.allowed) {
        Some(common_ints(c, n))
    } else if let Some(c) = &cur.allowed {
        Some(copy_ints(c))
    } else if let Some(n) = &new.allowed {
        Some(distinct_ints(n))
    } else {
        None
    };
    IntBounds { min: max_int(cur.min, new.min), max: min_int(cur.max, new.max), allowed }
}

fn tighten_floats(cur: &FloatBounds, new: &FloatBounds) -> (r: FloatBounds)
    ensures
        r@ == tightened_floats(cur@, new@),
{
    let allowed = if let (Some(c), Some(n)) = (&cur.allowed, &new.allowed) {
        Some(common_numbers(c, n))
    } else if let Some(c) = &cur.allowed {
        Some(copy_numbers(c))
    } else if let Some(n) = &new.allowed {
        Some(copy_numbers(n))
    } else {
        None
    };
    FloatBounds {
        min: max_number(&cur.min, &new.min),
        max: min_number(&cur.max, &new.max),
        allowed,
    }
}

fn tighten_length(cur: &LengthBounds, new: &LengthBounds) -> (r: LengthBounds)
    ensures
        r == tightened_length(*cur, *new),
{
    LengthBounds { min: max_length(cur.min, new.min), max: min_length(cur.max, new.max) }
}

fn tighten_texts(cur: &Option<Vec<String>>, new: &Option<Vec<String>>) -> (r: Option<Vec<String>>)
    ensures
        opt_texts(r) == common(opt_texts(*cur), opt_texts(*new)),
{
    if let (Some(c), Some(n)) = (cur, new) {
        Some(common_texts(c, n))
    } else if let Some(c) = cur {
        Some(clone_texts(c))
    } else if let Some(n) = new {
        Some(distinct_texts(n))
    } else {
        None
    }
}

/// The constraints that two constraints make together. Allowed values keep the order in which
/// the first constraints have them, or the second where the first have none.
pub fn tighten(cur: &Constraints, new: &Constraints) -> (r: Constraints)
    ensures
        r@ == tightened(cur@, new@),
{
    Constraints {
        ints: tighten_ints(&cur.ints, &new.ints),
        floats: tighten_floats(&cur.floats, &new.floats),
        length: tighten_length(&cur.length, &new.length),
        allowed_texts: tighten_texts(&cur.allowed_texts, &new.allowed_texts),
        item_ints: tighten_ints(&cur.item_ints, &new.item_ints),
        item_floats: tighten_floats(&cur.item_floats, &new.item_floats),
        item_length: tighten_length(&cur.item_length, &new.item_length),
        item_allowed_texts: tighten_texts(&cur.item_allowed_texts, &new.item_allowed_texts),
        item_item_ints: tighten_ints(&cur.item_item_ints, &new.item_item_ints),
    }
}

/// Whether an integer meets its limits.
pub open spec fn int_ok(b: IntBoundsView, v: i64) -> bool {
    &&& b.min matches Some(min) ==> min <= v
    &&& b.max matches Some(max) ==> v <= max
    &&& b.allowed matches Some(allowed) ==> allowed.contains(v)
}

/// Whether a float meets its limits.
pub open spec fn float_ok(b: FloatBoundsView, bits: u64) -> bool {
    &&& b.min matches Some(min) ==> !float_lt(bits, min.bits)
    &&& b.max matches Some(max) ==> !float_lt(max.bits, bits)
    &&& b.allowed matches Some(allowed) ==> float_among(allowed, bits)
}

/// Whether a length meets its limits.
pub open spec fn length_ok(b: LengthBounds, n: nat) -> bool {
    &&& b.min matches Some(min) ==> min <= n
    &&& b.max matches Some(max) ==> n <= max
}

/// Whether a text is allowed.
pub open spec fn text_ok(allowed: Option<Seq<Seq<char>>>, t: Seq<char>) -> bool {
    allowed matches Some(a) ==> a.contains(t)
}

/// Whether a list of texts meets its constraints.
pub open spec fn texts_ok(c: ConstraintsView, s: Seq<Seq<char>>) -> bool {
    &&& length_ok(c.length, s.len())
    &&& forall|i: int|
        0 <= i < s.len() ==> length_ok(c.item_length, (#[trigger] s[i]).len()) && text_ok(
            c.item_allowed_texts,
            s[i],
        )
}

/// Whether an inner list meets its constraints. Only lists of integers have any.
pub open spec fn inner_ok(c: ConstraintsView, v: ValueView) -> bool {
    v matches ValueView::ListInt(ints) ==> {
        &&& length_ok(c.item_length, ints.len())
        &&& forall|j: int| 0 <= j < ints.len() ==> int_ok(c.item_item_ints, #[trigger] ints[j])
    }
}

/// Whether a value meets all constraints.
pub open spec fn accepts(c: ConstraintsView, v: ValueView) -> bool {
    match v {
        ValueView::Int(i) => int_ok(c.ints, i),
        ValueView::Float(f) => float_ok(c.floats, f.number.bits),
        ValueView::String(t) => length_ok(c.length, encode_utf8(t).len()) && text_ok(
            c.allowed_texts,
            t,
        ),
        ValueView::Path(t) => length_ok(c.length, encode_utf8(t).len()) && text_ok(
            c.allowed_texts,
            t,
        ),
        ValueView::ListBool(s) => length_ok(c.length, s.len()),
        ValueView::ListInt(s) => length_ok(c.length, s.len()) && forall|i: int|
            0 <= i < s.len() ==> int_ok(c.item_ints, #[trigger] s[i]),
        ValueView::ListFloat(s) => length_ok(c.length, s.len()) && forall|i: int|
            0 <= i < s.len() ==> float_ok(c.item_floats, (#[trigger] s[i]).number.bits),
        ValueView::ListString(s) => texts_ok(c, s),
        ValueView::ListPath(s) => texts_ok(c, s),
        ValueView::ListList(s) => length_ok(c.length, s.len()) && forall|i: int|
            0 <= i < s.len() ==> inner_ok(c, #[trigger] s[i]),
        ValueView::Null | ValueView::Bool(_) | ValueView::RangeExpr(_) => true,
    }
}

/// A value is reported against exactly when it does not meet its constraints.
pub proof fn complaint_exactly_when_refused(c: ConstraintsView, name: Seq<char>, v: ValueView)
    ensures
        value_complaint(c, name, v) is None <==> accepts(c, v),
{
    match v {
        ValueView::ListInt(s) => {
            let all = Seq::new(s.len(), |i: int| int_item_complaint(c, name, i, s[i]));
            first_fault_none(all);
            assert forall|i: int| 0 <= i < s.len() implies (all[i] is None <==> int_ok(
                c.item_ints,
                #[trigger] s[i],
            )) by {}
            if accepts(c, v) {
                assert forall|i: int| 0 <= i < all.len() implies #[trigger] all[i] is None by {
                    assert(int_ok(c.item_ints, s[i]));
                }
            }
        },
        ValueView::ListFloat(s) => {
            let all = Seq::new(s.len(), |i: int| float_item_complaint(c, name, i, s[i]));
            first_fault_none(all);
            assert forall|i: int| 0 <= i < s.len() implies (all[i] is None <==> float_ok(
                c.item_floats,
                (#[trigger] s[i]).number.bits,
            )) by {}
            if accepts(c, v) {
                assert forall|i: int| 0 <= i < all.len() implies #[trigger] all[i] is None by {
                    assert(float_ok(c.item_floats, s[i].number.bits));
                }
            }
        },
        ValueView::ListString(s) => text_list_accepted(c, name, s),
        ValueView::ListPath(s) => text_list_accepted(c, name, s),
        ValueView::ListList(s) => {
            let all = Seq::new(s.len(), |i: int| list_item_complaint(c, name, i, s[i]));
            first_fault_none(all);
            assert forall|i: int| 0 <= i < s.len() implies (all[i] is None <==> inner_ok(
                c,
                #[trigger] s[i],
            )) by {
                inner_accepted(c, name, i, s[i]);
            }
            if accepts(c, v) {
                assert forall|i: int| 0 <= i < all.len() implies #[trigger] all[i] is None by {
                    assert(inner_ok(c, s[i]));
                }
            }
        },
        _ => {},
    }
}

proof fn text_list_accepted(c: ConstraintsView, name: Seq<char>, s: Seq<Seq<char>>)
    ensures
        text_list_complaint(c, name, s) is None <==> texts_ok(c, s),
{
    let all = Seq::new(s.len(), |i: int| text_item_complaint(c, name, i, s[i]));
    first_fault_none(all);
    assert forall|i: int| 0 <= i < s.len() implies (all[i] is None <==> length_ok(
        c.item_length,
        (#[trigger] s[i]).len(),
    ) && text_ok(c.item_allowed_texts, s[i])) by {}
    if texts_ok(c, s) {
        assert forall|i: int| 0 <= i < all.len() implies #[trigger] all[i] is None by {
            assert(length_ok(c.item_length, s[i].len()));
        }
    }
}

proof fn inner_accepted(c: ConstraintsView, name: Seq<char>, i: int, v: ValueView)
    ensures
        list_item_complaint(c, name, i, v) is None <==> inner_ok(c, v),
{
    if let ValueView::ListInt(ints) = v {
        let all = Seq::new(ints.len(), |j: int| inner_int_complaint(c, name, i, j, ints[j]));
        first_fault_none(all);
        assert forall|j: int| 0 <= j < ints.len() implies (all[j] is None <==> int_ok(
            c.item_item_ints,
            #[trigger] ints[j],
        )) by {}
        if inner_ok(c, v) {
            assert forall|j: int| 0 <= j < all.len() implies #[trigger] all[j] is None by {
                assert(int_ok(c.item_item_ints, ints[j]));
            }
        }
    }
}

/// Whether two lists that both allow zero have one of the two zeros in common.
///
/// Allowed floats are intersected by their bits, so a list with the positive zero and one with
/// the negative zero have none in common, though each allows either zero.
pub open spec fn zeros_agree(
    a: Option<Seq<NumberView>>,
    b: Option<Seq<NumberView>>,
) -> bool {
    (a matches Some(x) && b matches Some(y) && float_among(x, 0) && float_among(y, 0)) ==> (
    bits_of(a->0).contains(0) && bits_of(b->0).contains(0)) || (bits_of(a->0).contains(SIGN_BIT)
        && bits_of(b->0).contains(SIGN_BIT))
}

/// What is kept of a list is what both lists have.
pub proof fn kept_is_in_both<A>(cur: Seq<A>, new: Seq<A>)
    ensures
        forall|x: A| #[trigger] kept(cur, new).contains(x) <==> cur.contains(x) && new.contains(x),
    decreases cur.len(),
{
    reveal(Seq::filter);
    if cur.len() > 0 {
        let front = cur.drop_last();
        let before = kept(front, new);
        kept_is_in_both(front, new);
        assert(cur =~= front.push(cur.last()));
        contains_in_push(front, cur.last());
        contains_in_push(before, cur.last());
    }
}

/// What is kept of a list of numbers has the bits that both lists have.
pub proof fn kept_bits_are_in_both(cur: Seq<NumberView>, new: Seq<NumberView>)
    ensures
        forall|x: u64| #[trigger]
            bits_of(kept_numbers(cur, new)).contains(x) <==> bits_of(cur).contains(x) && bits_of(
                new,
            ).contains(x),
    decreases cur.len(),
{
    reveal(Seq::filter);
    if cur.len() > 0 {
        let front = cur.drop_last();
        let before = kept_numbers(front, new);
        kept_bits_are_in_both(front, new);
        assert(bits_of(cur) =~= bits_of(front).push(cur.last().bits));
        assert(bits_of(before.push(cur.last())) =~= bits_of(before).push(cur.last().bits));
        contains_in_push(bits_of(front), cur.last().bits);
        contains_in_push(bits_of(before), cur.last().bits);
    }
}

/// The allowed floats that two lists make together have the bits that each list which is there
/// has.
pub proof fn allowed_floats_together(
    c: Option<Seq<NumberView>>,
    d: Option<Seq<NumberView>>,
    bits: u64,
)
    ensures
        common_floats(c, d) matches Some(both) ==> (bits_of(both).contains(bits) <==> (c is Some
            ==> bits_of(c->0).contains(bits)) && (d is Some ==> bits_of(d->0).contains(bits))),
{
    if c is Some && d is Some {
        kept_bits_are_in_both(c->0, d->0);
        assert(bits_of(kept_numbers(c->0, d->0)).contains(bits) <==> bits_of(c->0).contains(bits)
            && bits_of(d->0).contains(bits));
    }
}

proof fn contains_in_push<A>(s: Seq<A>, a: A)
    ensures
        forall|x: A| #[trigger] s.push(a).contains(x) <==> s.contains(x) || x == a,
{
    let t = s.push(a);
    assert forall|x: A| #[trigger] t.contains(x) <==> s.contains(x) || x == a by {
        if s.contains(x) {
            let i = choose|i: int| 0 <= i < s.len() && s[i] == x;
            assert(t[i] == x);
        }
        assert(t[s.len() as int] == a);
        if t.contains(x) {
            let i = choose|i: int| 0 <= i < t.len() && t[i] == x;
            assert(i < s.len() ==> s[i] == x);
        }
    }
}

/// Where the first of two lists holds nothing twice, neither does what they make together.
pub proof fn common_has_no_repeats<A>(cur: Option<Seq<A>>, new: Option<Seq<A>>)
    requires
        cur matches Some(c) ==> c.no_duplicates(),
    ensures
        common(cur, new) matches Some(both) ==> both.no_duplicates(),
{
    if new is Some {
        if cur is Some {
            kept_has_no_repeats(cur->0, new->0);
        } else {
            first_occurrences_facts(new->0);
        }
    }
}

proof fn kept_has_no_repeats<A>(cur: Seq<A>, new: Seq<A>)
    requires
        cur.no_duplicates(),
    ensures
        kept(cur, new).no_duplicates(),
    decreases cur.len(),
{
    reveal(Seq::filter);
    if cur.len() > 0 {
        let front = cur.drop_last();
        let before = kept(front, new);
        let all = kept(cur, new);
        assert forall|a: int, b: int|
            0 <= a < front.len() && 0 <= b < front.len() && a != b implies front[a]
            != front[b] by {
            assert(cur[a] != cur[b]);
        }
        kept_has_no_repeats(front, new);
        kept_is_in_both(front, new);
        assert(!front.contains(cur.last())) by {
            if front.contains(cur.last()) {
                let k = choose|k: int| 0 <= k < front.len() && front[k] == cur.last();
                assert(cur[k] != cur[cur.len() - 1]);
            }
        }
        assert(!before.contains(cur.last()));
        if new.contains(cur.last()) {
            assert forall|a: int, b: int|
                0 <= a < all.len() && 0 <= b < all.len() && a != b implies all[a] != all[b] by {
                if a < before.len() && b < before.len() {
                    assert(before[a] != before[b]);
                } else if a < before.len() {
                    assert(before.contains(before[a]));
                } else {
                    assert(before.contains(before[b]));
                }
            }
        }
    }
}

proof fn allowed_together<A>(c: Option<Seq<A>>, d: Option<Seq<A>>)
    ensures
        common(c, d) is Some <==> c is Some || d is Some,
        forall|x: A|
            common(c, d) is Some ==> (#[trigger] common(c, d)->0.contains(x) <==> (c is Some
                ==> c->0.contains(x)) && (d is Some ==> d->0.contains(x))),
{
    if c is Some && d is Some {
        kept_is_in_both(c->0, d->0);
    } else if d is Some {
        first_occurrences_facts(d->0);
    }
}

proof fn ints_ok_together(c: IntBoundsView, d: IntBoundsView, v: i64)
    ensures
        int_ok(tightened_ints(c, d), v) <==> int_ok(c, v) && int_ok(d, v),
{
    allowed_together(c.allowed, d.allowed);
    if c.allowed is Some || d.allowed is Some {
        let both = common(c.allowed, d.allowed)->0;
        assert(both.contains(v) <==> (c.allowed is Some ==> c.allowed->0.contains(v)) && (
        d.allowed is Some ==> d.allowed->0.contains(v)));
    }
}

proof fn number_in_both(x: Seq<NumberView>, y: Seq<NumberView>, bits: u64)
    ensures
        float_among(kept_numbers(x, y), bits) <==> float_among(x, bits) && float_among(y, bits)
            && (float_key(bits) == 0 ==> zeros_agree(Some(x), Some(y))),
{
    let both = bits_of(kept_numbers(x, y));
    kept_bits_are_in_both(x, y);
    if float_among(kept_numbers(x, y), bits) {
        let a = choose|a: u64| #[trigger] both.contains(a) && float_eq(a, bits);
        assert(bits_of(x).contains(a) && bits_of(y).contains(a));
        if float_key(bits) == 0 {
            assert(float_key(a) == 0);
            assert(a == 0 || a == SIGN_BIT);
        }
    }
    if float_among(x, bits) && float_among(y, bits) {
        let a = choose|a: u64| #[trigger] bits_of(x).contains(a) && float_eq(a, bits);
        let b = choose|b: u64| #[trigger] bits_of(y).contains(b) && float_eq(b, bits);
        if float_key(bits) != 0 {
            crate::params::floats::equal_numbers_have_equal_bits(a, bits);
            crate::params::floats::equal_numbers_have_equal_bits(b, bits);
            assert(both.contains(bits));
        } else {
            assert(float_eq(a, 0) && float_eq(b, 0));
            assert(float_eq(0, bits) && float_eq(SIGN_BIT, bits));
            if zeros_agree(Some(x), Some(y)) {
                assert(both.contains(0) || both.contains(SIGN_BIT));
            }
        }
    }
}

proof fn floats_ok_together(c: FloatBoundsView, d: FloatBoundsView, bits: u64)
    ensures
        float_ok(tightened_floats(c, d), bits) <==> float_ok(c, bits) && float_ok(d, bits) && (
        float_key(bits) == 0 ==> zeros_agree(c.allowed, d.allowed)),
{
    if c.allowed is Some && d.allowed is Some {
        number_in_both(c.allowed->0, d.allowed->0, bits);
    }
    if c.min is Some && d.min is Some {
        crate::params::floats::tighter_bound_is_both(bits, c.min->0.bits, d.min->0.bits);
    }
    if c.max is Some && d.max is Some {
        crate::params::floats::tighter_bound_is_both(bits, c.max->0.bits, d.max->0.bits);
    }
}

/// Whether the two zeros make no difference to a value: it holds none, or the allowed floats
/// agree on zero.
pub open spec fn zeros_settled(c: ConstraintsView, d: ConstraintsView, v: ValueView) -> bool {
    match v {
        ValueView::Float(f) => float_key(f.number.bits) == 0 ==> zeros_agree(
            c.floats.allowed,
            d.floats.allowed,
        ),
        ValueView::ListFloat(s) => forall|i: int|
            0 <= i < s.len() && float_key((#[trigger] s[i]).number.bits) == 0 ==> zeros_agree(
                c.item_floats.allowed,
                d.item_floats.allowed,
            ),
        _ => true,
    }
}

/// Two sets of constraints together accept exactly the values that each of them accepts,
/// but for a zero that they allow under different signs.
pub proof fn together_accepts_what_both_accept(
    c: ConstraintsView,
    d: ConstraintsView,
    v: ValueView,
)
    ensures
        accepts(tightened(c, d), v) <==> accepts(c, v) && accepts(d, v) && zeros_settled(c, d, v),
{
    let t = tightened(c, d);
    match v {
        ValueView::Int(i) => {
            ints_ok_together(c.ints, d.ints, i);
        },
        ValueView::String(_) | ValueView::Path(_) => {
            allowed_together(c.allowed_texts, d.allowed_texts);
        },
        ValueView::Float(f) => {
            floats_ok_together(c.floats, d.floats, f.number.bits);
        },
        ValueView::ListInt(s) => {
            assert forall|i: int| 0 <= i < s.len() implies (int_ok(t.item_ints, #[trigger] s[i])
                <==> int_ok(c.item_ints, s[i]) && int_ok(d.item_ints, s[i])) by {
                ints_ok_together(c.item_ints, d.item_ints, s[i]);
            }
            if accepts(c, v) && accepts(d, v) {
                assert forall|i: int| 0 <= i < s.len() implies int_ok(
                    t.item_ints,
                    #[trigger] s[i],
                ) by {}
            }
        },
        ValueView::ListFloat(s) => {
            assert forall|i: int| 0 <= i < s.len() implies (float_ok(
                t.item_floats,
                (#[trigger] s[i]).number.bits,
            ) <==> float_ok(c.item_floats, s[i].number.bits) && float_ok(
                d.item_floats,
                s[i].number.bits,
            ) && (float_key(s[i].number.bits) == 0 ==> zeros_agree(
                c.item_floats.allowed,
                d.item_floats.allowed,
            ))) by {
                floats_ok_together(c.item_floats, d.item_floats, s[i].number.bits);
            }
        },
        ValueView::ListString(s) => texts_ok_together(c, d, s),
        ValueView::ListPath(s) => texts_ok_together(c, d, s),
        ValueView::ListList(s) => {
            assert forall|i: int| 0 <= i < s.len() implies (inner_ok(t, #[trigger] s[i])
                <==> inner_ok(c, s[i]) && inner_ok(d, s[i])) by {
                inner_ok_together(c, d, s[i]);
            }
        },
        _ => {},
    }
}

proof fn texts_ok_together(c: ConstraintsView, d: ConstraintsView, s: Seq<Seq<char>>)
    ensures
        texts_ok(tightened(c, d), s) <==> texts_ok(c, s) && texts_ok(d, s),
{
    allowed_together(c.item_allowed_texts, d.item_allowed_texts);
}

proof fn inner_ok_together(c: ConstraintsView, d: ConstraintsView, v: ValueView)
    ensures
        inner_ok(tightened(c, d), v) <==> inner_ok(c, v) && inner_ok(d, v),
{
    if let ValueView::ListInt(ints) = v {
        assert forall|j: int| 0 <= j < ints.len() implies (int_ok(
            tightened(c, d).item_item_ints,
            #[trigger] ints[j],
        ) <==> int_ok(c.item_item_ints, ints[j]) && int_ok(d.item_item_ints, ints[j])) by {
            ints_ok_together(c.item_item_ints, d.item_item_ints, ints[j]);
        }
    }
}

/// Whether a value lies within the limits of its kind.
pub open spec fn within_limits(c: ConstraintsView, v: ValueView) -> bool {
    match v {
        ValueView::Int(i) => (c.ints.min is Some ==> c.ints.min->0 <= i) && (c.ints.max is Some
            ==> i <= c.ints.max->0) && (c.ints.allowed is Some ==> c.ints.allowed->0.contains(
            i,
        )),
        ValueView::Float(f) => float_is_admitted(c.floats, f.number.bits),
        ValueView::String(t) | ValueView::Path(t) => (c.length.min is Some ==> c.length.min->0
            <= encode_utf8(t).len()) && (c.length.max is Some ==> encode_utf8(t).len()
            <= c.length.max->0) && (c.allowed_texts is Some ==> c.allowed_texts->0.contains(t)),
        ValueView::ListBool(s) => admitted_count(c, s.len()),
        ValueView::ListInt(s) => admitted_count(c, s.len()) && forall|k: int|
            0 <= k < s.len() ==> (c.item_ints.min is Some ==> c.item_ints.min->0
                <= #[trigger] s[k]) && (c.item_ints.max is Some ==> s[k] <= c.item_ints.max->0)
                && (c.item_ints.allowed is Some ==> c.item_ints.allowed->0.contains(s[k])),
        ValueView::ListFloat(s) => admitted_count(c, s.len()) && forall|k: int|
            0 <= k < s.len() ==> float_is_admitted(
                c.item_floats,
                (#[trigger] s[k]).number.bits,
            ),
        ValueView::ListString(s) => texts_are_admitted(c, s),
        ValueView::ListPath(s) => texts_are_admitted(c, s),
        ValueView::ListList(s) => admitted_count(c, s.len()) && forall|k: int|
            0 <= k < s.len() ==> (#[trigger] s[k] is ListInt ==> inner_is_admitted(
                c,
                s[k]->ListInt_0,
            )),
        ValueView::Null | ValueView::Bool(_) | ValueView::RangeExpr(_) => true,
    }
}

/// A value is reported against in no case exactly where it lies within the limits of its kind:
/// a number between its bounds and equal to one that is allowed, a text of an admitted number
/// of bytes and allowed itself, a list with an admitted number of items each of which lies
/// within the limits on items.
pub proof fn value_is_accepted_exactly_within_its_limits(
    c: ConstraintsView,
    name: Seq<char>,
    v: ValueView,
)
    ensures
        value_complaint(c, name, v) is None <==> within_limits(c, v),
{
    complaint_exactly_when_refused(c, name, v);
    match v {
        ValueView::Float(f) => {
            float_admission(c.floats, f.number.bits);
        },
        ValueView::ListInt(s) => {
            if accepts(c, v) {
                assert forall|k: int| 0 <= k < s.len() implies (c.item_ints.min is Some
                    ==> c.item_ints.min->0 <= #[trigger] s[k]) && (c.item_ints.max is Some ==> s[k]
                    <= c.item_ints.max->0) && (c.item_ints.allowed is Some
                    ==> c.item_ints.allowed->0.contains(s[k])) by {
                    assert(int_ok(c.item_ints, s[k]));
                }
            }
        },
        ValueView::ListFloat(s) => {
            assert forall|k: int| 0 <= k < s.len() implies (float_ok(
                c.item_floats,
                (#[trigger] s[k]).number.bits,
            ) <==> float_is_admitted(c.item_floats, s[k].number.bits)) by {
                float_admission(c.item_floats, s[k].number.bits);
            }
        },
        ValueView::ListList(s) => {
            assert forall|k: int| 0 <= k < s.len() implies (inner_ok(c, #[trigger] s[k]) <==> (s[k]
                is ListInt ==> inner_is_admitted(c, s[k]->ListInt_0))) by {
                if let ValueView::ListInt(ints) = s[k] {
                    if inner_ok(c, s[k]) {
                        assert forall|j: int| 0 <= j < ints.len() implies (
                        c.item_item_ints.min is Some ==> c.item_item_ints.min->0
                            <= #[trigger] ints[j]) && (c.item_item_ints.max is Some ==> ints[j]
                            <= c.item_item_ints.max->0) && (c.item_item_ints.allowed is Some
                            ==> c.item_item_ints.allowed->0.contains(ints[j])) by {
                            assert(int_ok(c.item_item_ints, ints[j]));
                        }
                    }
                }
            }
        },
        _ => {},
    }
}

/// Whether a list may have a number of items.
pub open spec fn admitted_count(c: ConstraintsView, n: nat) -> bool {
    (c.length.min is Some ==> c.length.min->0 <= n) && (c.length.max is Some ==> n
        <= c.length.max->0)
}

/// Whether a list of texts has an admitted number of them, each of an admitted length and
/// allowed.
pub open spec fn texts_are_admitted(c: ConstraintsView, s: Seq<Seq<char>>) -> bool {
    &&& admitted_count(c, s.len())
    &&& forall|k: int|
        0 <= k < s.len() ==> (c.item_length.min is Some ==> c.item_length.min->0 <= (
        #[trigger] s[k]).len()) && (c.item_length.max is Some ==> s[k].len()
            <= c.item_length.max->0) && (c.item_allowed_texts is Some
            ==> c.item_allowed_texts->0.contains(s[k]))
}

/// Whether a float lies between its bounds and equals one that is allowed.
pub open spec fn float_is_admitted(b: FloatBoundsView, bits: u64) -> bool {
    &&& b.min is Some ==> !float_lt(bits, b.min->0.bits)
    &&& b.max is Some ==> !float_lt(b.max->0.bits, bits)
    &&& b.allowed is Some ==> exists|k: int|
        0 <= k < b.allowed->0.len() && float_eq((#[trigger] b.allowed->0[k]).bits, bits)
}

/// Whether an inner list has an admitted number of integers, each within its limits.
pub open spec fn inner_is_admitted(c: ConstraintsView, s: Seq<i64>) -> bool {
    &&& c.item_length.min is Some ==> c.item_length.min->0 <= s.len()
    &&& c.item_length.max is Some ==> s.len() <= c.item_length.max->0
    &&& forall|j: int|
        0 <= j < s.len() ==> (c.item_item_ints.min is Some ==> c.item_item_ints.min->0
            <= #[trigger] s[j]) && (c.item_item_ints.max is Some ==> s[j]
            <= c.item_item_ints.max->0) && (c.item_item_ints.allowed is Some
            ==> c.item_item_ints.allowed->0.contains(s[j]))
}

proof fn float_admission(b: FloatBoundsView, bits: u64)
    ensures
        float_ok(b, bits) <==> float_is_admitted(b, bits),
{
    if let Some(allowed) = b.allowed {
        let all = bits_of(allowed);
        if float_among(allowed, bits) {
            let a = choose|a: u64| #[trigger] all.contains(a) && float_eq(a, bits);
            let k = choose|k: int| 0 <= k < all.len() && all[k] == a;
            assert(allowed[k].bits == a);
        }
        if exists|k: int| 0 <= k < allowed.len() && float_eq((#[trigger] allowed[k]).bits, bits) {
            let k = choose|k: int|
                0 <= k < allowed.len() && float_eq((#[trigger] allowed[k]).bits, bits);
            assert(all[k] == allowed[k].bits);
            assert(all.contains(all[k]));
        }
    }
}

/// A complaint names the parameter first.
pub proof fn complaint_names_the_parameter(c: ConstraintsView, name: Seq<char>, v: ValueView)
    ensures
        value_complaint(c, name, v) matches Some(m) ==> ("Parameter '"@ + name
            + "': "@).is_prefix_of(m),
{
    match v {
        ValueView::ListInt(s) => {
            let all = Seq::new(s.len(), |i: int| int_item_complaint(c, name, i, s[i]));
            first_fault_is_one(all);
        },
        ValueView::ListFloat(s) => {
            let all = Seq::new(s.len(), |i: int| float_item_complaint(c, name, i, s[i]));
            first_fault_is_one(all);
        },
        ValueView::ListString(s) | ValueView::ListPath(s) => {
            let all = Seq::new(s.len(), |i: int| text_item_complaint(c, name, i, s[i]));
            first_fault_is_one(all);
        },
        ValueView::ListList(s) => {
            let all = Seq::new(s.len(), |i: int| list_item_complaint(c, name, i, s[i]));
            first_fault_is_one(all);
            if first_fault(all) is Some {
                let i = choose|i: int| 0 <= i < all.len() && #[trigger] all[i] == first_fault(all);
                if let ValueView::ListInt(ints) = s[i] {
                    let inner = Seq::new(
                        ints.len(),
                        |j: int| inner_int_complaint(c, name, i, j, ints[j]),
                    );
                    first_fault_is_one(inner);
                }
            }
        },
        _ => {},
    }
    if let Some(m) = value_complaint(c, name, v) {
        let head = "Parameter '"@ + name + "': "@;
        assert(head =~= m.subrange(0, head.len() as int));
    }
}

proof fn first_fault_is_one(s: Seq<Option<Seq<char>>>)
    ensures
        first_fault(s) is Some ==> exists|i: int|
            0 <= i < s.len() && #[trigger] s[i] == first_fault(s),
    decreases s.len(),
{
    if s.len() > 0 {
        if s[0] is Some {
            assert(s[0] == first_fault(s));
        } else {
            let rest = s.drop_first();
            first_fault_is_one(rest);
            if first_fault(rest) is Some {
                let i = choose|i: int|
                    0 <= i < rest.len() && #[trigger] rest[i] == first_fault(rest);
                assert(s[i + 1] == rest[i]);
            }
        }
    }
}

/// Of two bounds the one that admits less counts, and one of them always counts where there is
/// one.
pub proof fn stronger_bound_counts(
    a: IntBoundsView,
    b: IntBoundsView,
    x: LengthBounds,
    y: LengthBounds,
)
    ensures
        ({
            let t = tightened_ints(a, b);
            let l = tightened_length(x, y);
            &&& t.min is Some <==> a.min is Some || b.min is Some
            &&& t.max is Some <==> a.max is Some || b.max is Some
            &&& t.min is Some ==> (t.min == a.min || t.min == b.min) && (a.min is Some ==> a.min->0
                <= t.min->0) && (b.min is Some ==> b.min->0 <= t.min->0)
            &&& t.max is Some ==> (t.max == a.max || t.max == b.max) && (a.max is Some ==> t.max->0
                <= a.max->0) && (b.max is Some ==> t.max->0 <= b.max->0)
            &&& l.min is Some <==> x.min is Some || y.min is Some
            &&& l.max is Some <==> x.max is Some || y.max is Some
            &&& l.min is Some ==> (l.min == x.min || l.min == y.min) && (x.min is Some ==> x.min->0
                <= l.min->0) && (y.min is Some ==> y.min->0 <= l.min->0)
            &&& l.max is Some ==> (l.max == x.max || l.max == y.max) && (x.max is Some ==> l.max->0
                <= x.max->0) && (y.max is Some ==> l.max->0 <= y.max->0)
        }),
{
}

/// Of two bounds on floats the one that admits less counts, with the text that it prints as.
pub proof fn stronger_float_bound_counts(a: FloatBoundsView, b: FloatBoundsView)
    ensures
        ({
            let t = tightened_floats(a, b);
            &&& t.min is Some <==> a.min is Some || b.min is Some
            &&& t.max is Some <==> a.max is Some || b.max is Some
            &&& t.min is Some ==> (t.min == a.min || t.min == b.min) && (a.min is Some
                ==> !float_lt(t.min->0.bits, a.min->0.bits)) && (b.min is Some ==> !float_lt(
                t.min->0.bits,
                b.min->0.bits,
            ))
            &&& t.max is Some ==> (t.max == a.max || t.max == b.max) && (a.max is Some
                ==> !float_lt(a.max->0.bits, t.max->0.bits)) && (b.max is Some ==> !float_lt(
                b.max->0.bits,
                t.max->0.bits,
            ))
        }),
{
}

/// What two lists make together goes through the first list in order: what is kept of two
/// pieces is what is kept of each, and of a single value it is the value where the other list
/// has it. A list that only comes second is not reordered.
pub proof fn kept_values_stay_in_order<A>(a: Seq<A>, b: Seq<A>, x: A, new: Seq<A>)
    ensures
        common(Some(a + b), Some(new)) == Some(
            common(Some(a), Some(new))->0 + common(Some(b), Some(new))->0,
        ),
        common(Some(seq![x]), Some(new)) == Some(
            if new.contains(x) {
                seq![x]
            } else {
                Seq::empty()
            },
        ),
        common(Some(a), None) == Some(a),
        a.no_duplicates() ==> common(None, Some(a)) == Some(a),
        common::<A>(None, None) is None,
{
    broadcast use Seq::filter_distributes_over_add;

    reveal(Seq::filter);
    let one = seq![x];
    let keeps = |y: A| new.contains(y);
    assert(one.drop_last() =~= Seq::<A>::empty());
    assert(one.drop_last().filter(keeps) =~= Seq::<A>::empty());
    if new.contains(x) {
        assert(kept(one, new) =~= one);
    } else {
        assert(kept(one, new) =~= Seq::empty());
    }
    assert(kept(a + b, new) =~= kept(a, new) + kept(b, new));
    crate::text::first_occurrences_keep_the_order(a, Seq::empty());
}

/// The same of allowed floats, which are told apart by their bits and keep the text that they
/// print as in the first list.
pub proof fn kept_floats_stay_in_order(
    a: Seq<NumberView>,
    b: Seq<NumberView>,
    x: NumberView,
    new: Seq<NumberView>,
)
    ensures
        common_floats(Some(a + b), Some(new)) == Some(
            common_floats(Some(a), Some(new))->0 + common_floats(Some(b), Some(new))->0,
        ),
        common_floats(Some(seq![x]), Some(new)) == Some(
            if exists|k: int| 0 <= k < new.len() && (#[trigger] new[k]).bits == x.bits {
                seq![x]
            } else {
                Seq::empty()
            },
        ),
        common_floats(Some(a), None) == Some(a),
        common_floats(None, Some(a)) == Some(a),
        common_floats(None, None) is None,
{
    broadcast use Seq::filter_distributes_over_add;

    reveal(Seq::filter);
    let keeps = |n: NumberView| bits_of(new).contains(n.bits);
    assert(seq![x].drop_last() =~= Seq::<NumberView>::empty());
    assert(seq![x].drop_last().filter(keeps) =~= Seq::<NumberView>::empty());
    assert(kept_numbers(a + b, new) =~= kept_numbers(a, new) + kept_numbers(b, new));
    if exists|k: int| 0 <= k < new.len() && (#[trigger] new[k]).bits == x.bits {
        let k = choose|k: int| 0 <= k < new.len() && (#[trigger] new[k]).bits == x.bits;
        assert(bits_of(new)[k] == x.bits);
        assert(kept_numbers(seq![x], new) =~= seq![x]);
    } else {
        assert(!bits_of(new).contains(x.bits)) by {
            if bits_of(new).contains(x.bits) {
                let k = choose|k: int| 0 <= k < new.len() && bits_of(new)[k] == x.bits;
                assert(new[k].bits == x.bits);
            }
        }
        assert(kept_numbers(seq![x], new) =~= Seq::empty());
    }
}

/// Each of the constraints that two make together is made of those of its own kind.
pub proof fn kinds_are_tightened_apart(c: ConstraintsView, d: ConstraintsView)
    ensures
        ({
            let t = tightened(c, d);
            &&& t.ints == tightened_ints(c.ints, d.ints)
            &&& t.floats == tightened_floats(c.floats, d.floats)
            &&& t.length == tightened_length(c.length, d.length)
            &&& t.allowed_texts == common(c.allowed_texts, d.allowed_texts)
            &&& t.item_ints == tightened_ints(c.item_ints, d.item_ints)
            &&& t.item_floats == tightened_floats(c.item_floats, d.item_floats)
            &&& t.item_length == tightened_length(c.item_length, d.item_length)
            &&& t.item_allowed_texts == common(c.item_allowed_texts, d.item_allowed_texts)
            &&& t.item_item_ints == tightened_ints(c.item_item_ints, d.item_item_ints)
            &&& t.ints.allowed == common(c.ints.allowed, d.ints.allowed)
            &&& t.item_ints.allowed == common(c.item_ints.allowed, d.item_ints.allowed)
            &&& t.item_item_ints.allowed == common(
                c.item_item_ints.allowed,
                d.item_item_ints.allowed,
            )
            &&& t.floats.allowed == common_floats(c.floats.allowed, d.floats.allowed)
            &&& t.item_floats.allowed == common_floats(
                c.item_floats.allowed,
                d.item_floats.allowed,
            )
        }),
{
}

/// Where nothing is demanded, every value is accepted.
pub proof fn no_constraints_accept_everything(name: Seq<char>, v: ValueView)
    ensures
        value_complaint(ConstraintsView::none(), name, v) is None,
{
    value_is_accepted_exactly_within_its_limits(ConstraintsView::none(), name, v);
}

/// Constraints together with none are the bounds that they have, and their lists of allowed
/// integers and texts with every value once.
pub proof fn constraints_stay_what_they_are_beside_none(c: ConstraintsView)
    ensures
        ({
            let t = tightened(ConstraintsView::none(), c);
            let u = tightened(c, ConstraintsView::none());
            &&& u == c
            &&& t.ints.min == c.ints.min && t.ints.max == c.ints.max
            &&& t.floats == c.floats && t.length == c.length
            &&& t.item_ints.min == c.item_ints.min && t.item_ints.max == c.item_ints.max
            &&& t.item_floats == c.item_floats && t.item_length == c.item_length
            &&& t.item_item_ints.min == c.item_item_ints.min && t.item_item_ints.max
                == c.item_item_ints.max
            &&& t.allowed_texts is Some <==> c.allowed_texts is Some
            &&& t.item_allowed_texts is Some <==> c.item_allowed_texts is Some
        }),
{
}

} // verus!
