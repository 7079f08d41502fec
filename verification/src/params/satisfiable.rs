//! Whether any value can meet constraints.

use vstd::prelude::*;
use vstd::utf8::encode_utf8;

use crate::params::constraints::value_complaint;
use crate::params::floats::{finite_bits, float_eq, is_finite, less, FloatView, NumberView};
use crate::params::template::{
    bits_of, numbers, opt_texts, Constraints, ConstraintsView, FloatBounds, FloatBoundsView,
    IntBounds, IntBoundsView, LengthBounds,
};
use crate::params::tighten::{
    accepts, complaint_exactly_when_refused, float_ok, inner_ok, int_ok, length_ok, text_ok,
};
use crate::params::values::{matches_type, JobParameterType, ValueView};
use crate::text::texts;

verus! {

/// Whether a value is of a declared type: it has the form that the type asks for, its floats
/// are finite, and the inner lists of a list of lists are lists of integers.
pub open spec fn is_of_type(v: ValueView, t: JobParameterType) -> bool {
    matches_type(v, t) && match v {
        ValueView::Float(f) => is_finite(f.number.bits),
        ValueView::ListFloat(s) => forall|i: int|
            0 <= i < s.len() ==> is_finite((#[trigger] s[i]).number.bits),
        ValueView::ListList(s) => forall|i: int| 0 <= i < s.len() ==> (#[trigger] s[i]) is ListInt,
        _ => true,
    }
}

/// Whether a value is of a declared type and meets constraints.
pub open spec fn suits(c: ConstraintsView, t: JobParameterType, v: ValueView) -> bool {
    is_of_type(v, t) && accepts(c, v)
}

/// Whether some value of a declared type meets constraints.
pub open spec fn satisfiable(c: ConstraintsView, t: JobParameterType) -> bool {
    exists|v: ValueView| #[trigger] suits(c, t, v)
}

/// Whether constraints on a value as a whole concern a declared type: there are limits on
/// integers only for INT, on floats only for FLOAT, allowed texts only for STRING and PATH,
/// and limits on a length only for those two and for lists.
pub open spec fn concerns_only(c: ConstraintsView, t: JobParameterType) -> bool {
    let text = t == JobParameterType::String || t == JobParameterType::Path;
    &&& t != JobParameterType::Int ==> c.ints == IntBoundsView::none()
    &&& t != JobParameterType::Float ==> c.floats == FloatBoundsView::none()
    &&& !text ==> c.allowed_texts is None
    &&& t == JobParameterType::Int || t == JobParameterType::Float || t == JobParameterType::Bool
        || t == JobParameterType::RangeExpr ==> c.length.min is None && c.length.max is None
}

/// Whether some integer meets its limits.
pub open spec fn some_int(b: IntBoundsView) -> bool {
    exists|v: i64| #[trigger] int_ok(b, v)
}

/// Whether some finite number meets its limits.
pub open spec fn some_float(b: FloatBoundsView) -> bool {
    exists|bits: u64| #[trigger] float_ok(b, bits) && is_finite(bits)
}

/// Whether some allowed text has a length in bytes that meets its limits.
pub open spec fn some_text(b: LengthBounds, allowed: Option<Seq<Seq<char>>>) -> bool {
    exists|t: Seq<char>| #[trigger] text_ok(allowed, t) && length_ok(b, encode_utf8(t).len())
}

/// Whether some allowed text has a number of characters that meets its limits.
pub open spec fn some_text_item(b: LengthBounds, allowed: Option<Seq<Seq<char>>>) -> bool {
    exists|t: Seq<char>| #[trigger] text_ok(allowed, t) && length_ok(b, t.len())
}

/// Whether some list of integers can stand inside a list.
pub open spec fn some_inner(c: ConstraintsView) -> bool {
    exists|s: Seq<i64>| #[trigger] inner_ok(c, ValueView::ListInt(s))
}

/// Whether some number of items meets its limits and is zero where there can be no item.
pub open spec fn some_count(b: LengthBounds, item: bool) -> bool {
    exists|n: nat| #[trigger] length_ok(b, n) && (item || n == 0)
}

fn int_possible(b: &IntBounds) -> (r: bool)
    ensures
        r == some_int(b@),
{
    if let Some(allowed) = &b.allowed {
        let mut i: usize = 0;
        while i < allowed.len()
            invariant
                i <= allowed.len(),
                b.allowed == Some(*allowed),
                forall|k: int| 0 <= k < i ==> !int_ok(b@, #[trigger] allowed@[k]),
            decreases allowed.len() - i,
        {
            let v: i64 = allowed[i];
            assert(allowed@.contains(allowed@[i as int]));
            let high: bool = match b.min {
                Some(min) => min <= v,
                None => true,
            };
            let low: bool = match b.max {
                Some(max) => v <= max,
                None => true,
            };
            if high && low {
                assert(int_ok(b@, v));
                return true;
            }
            i += 1;
        }
        assert forall|v: i64| !#[trigger] int_ok(b@, v) by {
            if allowed@.contains(v) {
                let k = choose|k: int| 0 <= k < allowed@.len() && allowed@[k] == v;
                assert(!int_ok(b@, allowed@[k]));
            }
        }
        false
    } else {
        match (b.min, b.max) {
            (Some(min), Some(max)) => {
                assert(int_ok(b@, min) == (min <= max));
                min <= max
            },
            (Some(min), None) => {
                assert(int_ok(b@, min));
                true
            },
            (None, Some(max)) => {
                assert(int_ok(b@, max));
                true
            },
            (None, None) => {
                assert(int_ok(b@, 0));
                true
            },
        }
    }
}

fn in_range(b: &FloatBounds, bits: u64) -> (r: bool)
    ensures
        r == float_ok(FloatBoundsView { allowed: None, ..b@ }, bits),
{
    let high: bool = match &b.min {
        Some(min) => !less(bits, min.bits),
        None => true,
    };
    let low: bool = match &b.max {
        Some(max) => !less(max.bits, bits),
        None => true,
    };
    high && low
}

fn float_possible(b: &FloatBounds) -> (r: bool)
    ensures
        r == some_float(b@),
{
    if let Some(allowed) = &b.allowed {
        let ghost set = bits_of(numbers(allowed@));
        let mut i: usize = 0;
        while i < allowed.len()
            invariant
                i <= allowed.len(),
                b.allowed == Some(*allowed),
                set == bits_of(numbers(allowed@)),
                forall|k: int|
                    0 <= k < i ==> !(is_finite(#[trigger] bits_of(numbers(allowed@))[k]) && float_ok(
                        FloatBoundsView { allowed: None, ..b@ },
                        bits_of(numbers(allowed@))[k],
                    )),
            decreases allowed.len() - i,
        {
            let bits: u64 = allowed[i].bits;
            assert(bits_of(numbers(allowed@))[i as int] == bits);
            if finite_bits(bits) && in_range(b, bits) {
                assert(set.contains(bits));
                assert(float_eq(bits, bits));
                assert(float_ok(b@, bits));
                return true;
            }
            i += 1;
        }
        assert forall|bits: u64| !(#[trigger] float_ok(b@, bits) && is_finite(bits)) by {
            if float_ok(b@, bits) && is_finite(bits) {
                let a = choose|a: u64| #[trigger] set.contains(a) && float_eq(a, bits);
                let k = choose|k: int| 0 <= k < allowed@.len() && bits_of(numbers(allowed@))[k] == a;
                assert(is_finite(bits_of(numbers(allowed@))[k]));
            }
        }
        false
    } else {
        let lowest: Option<u64> = match &b.min {
            Some(min) => if finite_bits(min.bits) {
                Some(min.bits)
            } else {
                None
            },
            None => None,
        };
        let highest: Option<u64> = match &b.max {
            Some(max) => if finite_bits(max.bits) {
                Some(max.bits)
            } else {
                None
            },
            None => None,
        };
        let bits: u64 = match (lowest, highest) {
            (Some(min), _) => min,
            (None, Some(max)) => max,
            (None, None) => 0,
        };
        let r: bool = in_range(b, bits);
        proof {
            if r {
                assert(float_ok(b@, bits));
            } else {
                assert forall|v: u64| !(#[trigger] float_ok(b@, v) && is_finite(v)) by {}
            }
        }
        r
    }
}

fn within(b: &LengthBounds, n: usize) -> (r: bool)
    ensures
        r == length_ok(*b, n as nat),
{
    let long: bool = match b.min {
        Some(min) => min <= n,
        None => true,
    };
    let short: bool = match b.max {
        Some(max) => n <= max,
        None => true,
    };
    long && short
}

/// The least length that is not too short.
spec fn least_length(b: LengthBounds) -> nat {
    match b.min {
        Some(min) => min as nat,
        None => 0,
    }
}

fn least(b: &LengthBounds) -> (n: usize)
    ensures
        n == least_length(*b),
{
    match b.min {
        Some(min) => min,
        None => 0,
    }
}

/// A text of the given length, one byte for each character.
spec fn plain_text(n: nat) -> Seq<char> {
    Seq::new(n, |i: int| 'a')
}

proof fn plain_text_len(n: nat)
    ensures
        plain_text(n).len() == n,
        encode_utf8(plain_text(n)).len() == n,
    decreases n,
{
    if n > 0 {
        plain_text_len((n - 1) as nat);
        assert(plain_text(n).drop_first() =~= plain_text((n - 1) as nat));
    }
}

fn text_possible(b: &LengthBounds, allowed: &Option<Vec<String>>) -> (r: bool)
    ensures
        r == some_text(*b, opt_texts(*allowed)),
{
    let ghost set = opt_texts(*allowed);
    if let Some(list) = allowed {
        let mut i: usize = 0;
        while i < list.len()
            invariant
                i <= list.len(),
                *allowed == Some(*list),
                set == opt_texts(*allowed),
                forall|k: int|
                    0 <= k < i ==> !length_ok(*b, encode_utf8(#[trigger] texts(list@)[k]).len()),
            decreases list.len() - i,
        {
            let n: usize = list[i].as_str().as_bytes().len();
            assert(texts(list@)[i as int] == list@[i as int]@);
            if within(b, n) {
                assert(text_ok(set, texts(list@)[i as int]));
                return true;
            }
            i += 1;
        }
        assert forall|t: Seq<char>| !(#[trigger] text_ok(set, t) && length_ok(
            *b,
            encode_utf8(t).len(),
        )) by {
            if text_ok(set, t) {
                let k = choose|k: int| 0 <= k < list@.len() && texts(list@)[k] == t;
                assert(texts(list@)[k] == t);
            }
        }
        false
    } else {
        let r: bool = within(b, least(b));
        proof {
            let t = plain_text(least_length(*b));
            plain_text_len(least_length(*b));
            assert(text_ok(set, t));
        }
        r
    }
}

fn text_item_possible(b: &LengthBounds, allowed: &Option<Vec<String>>) -> (r: bool)
    ensures
        r == some_text_item(*b, opt_texts(*allowed)),
{
    let ghost set = opt_texts(*allowed);
    if let Some(list) = allowed {
        let mut i: usize = 0;
        while i < list.len()
            invariant
                i <= list.len(),
                *allowed == Some(*list),
                set == opt_texts(*allowed),
                forall|k: int|
                    0 <= k < i ==> !length_ok(*b, (#[trigger] texts(list@)[k]).len()),
            decreases list.len() - i,
        {
            let n: usize = list[i].as_str().unicode_len();
            assert(texts(list@)[i as int] == list@[i as int]@);
            if within(b, n) {
                assert(text_ok(set, texts(list@)[i as int]));
                return true;
            }
            i += 1;
        }
        assert forall|t: Seq<char>| !(#[trigger] text_ok(set, t) && length_ok(*b, t.len())) by {
            if text_ok(set, t) {
                let k = choose|k: int| 0 <= k < list@.len() && texts(list@)[k] == t;
                assert(texts(list@)[k] == t);
            }
        }
        false
    } else {
        let r: bool = within(b, least(b));
        proof {
            let t = plain_text(least_length(*b));
            assert(text_ok(set, t) && t.len() == least_length(*b));
        }
        r
    }
}

fn count_possible(b: &LengthBounds, item: bool) -> (r: bool)
    ensures
        r == some_count(*b, item),
{
    let n: usize = least(b);
    let r: bool = within(b, n) && (item || n == 0);
    proof {
        if r {
            assert(length_ok(*b, n as nat));
        }
    }
    r
}

fn inner_possible(c: &Constraints) -> (r: bool)
    ensures
        r == some_inner(c@),
{
    let item: bool = int_possible(&c.item_item_ints);
    let r: bool = count_possible(&c.item_length, item);
    proof {
        if r {
            let n = choose|n: nat| #[trigger] length_ok(c.item_length, n) && (item || n == 0);
            let v = choose|v: i64| #[trigger] int_ok(c@.item_item_ints, v);
            let s = Seq::new(n, |i: int| v);
            assert(inner_ok(c@, ValueView::ListInt(s)));
        } else {
            assert forall|s: Seq<i64>| !#[trigger] inner_ok(c@, ValueView::ListInt(s)) by {
                if inner_ok(c@, ValueView::ListInt(s)) {
                    assert(length_ok(c.item_length, s.len()));
                    if s.len() > 0 {
                        assert(int_ok(c@.item_item_ints, s[0]));
                    }
                }
            }
        }
    }
    r
}

/// Whether constraints leave some value of a declared type, told from the limits alone.
pub open spec fn leaves_a_value(c: ConstraintsView, t: JobParameterType) -> bool {
    match t {
        JobParameterType::Int => some_int(c.ints),
        JobParameterType::Float => some_float(c.floats),
        JobParameterType::String | JobParameterType::Path => some_text(c.length, c.allowed_texts),
        JobParameterType::Bool | JobParameterType::RangeExpr => true,
        JobParameterType::ListBool => some_count(c.length, true),
        JobParameterType::ListInt => some_count(c.length, some_int(c.item_ints)),
        JobParameterType::ListFloat => some_count(c.length, some_float(c.item_floats)),
        JobParameterType::ListString | JobParameterType::ListPath => some_count(
            c.length,
            some_text_item(c.item_length, c.item_allowed_texts),
        ),
        JobParameterType::ListListInt => some_count(c.length, some_inner(c)),
    }
}

/// Some value of a declared type meets constraints exactly where their limits leave one: an
/// allowed integer or finite float lies in the range, an allowed text has an admitted length,
/// and a list that must have items has an item to be made of.
pub proof fn satisfiable_exactly_when_a_value_is_left(c: ConstraintsView, t: JobParameterType)
    ensures
        satisfiable(c, t) <==> leaves_a_value(c, t),
{
    if leaves_a_value(c, t) {
        value_is_left(c, t);
    }
    if satisfiable(c, t) {
        value_leaves_itself(c, t, choose|v: ValueView| #[trigger] suits(c, t, v));
    }
}

/// A count that `some_count` finds.
spec fn found_count(b: LengthBounds, item: bool) -> nat {
    choose|n: nat| #[trigger] length_ok(b, n) && (item || n == 0)
}

/// A float value with the given bits.
spec fn float_value(bits: u64) -> FloatView {
    FloatView { number: NumberView { bits, shown: Seq::empty() }, text: Seq::empty() }
}

proof fn value_is_left(c: ConstraintsView, t: JobParameterType)
    requires
        leaves_a_value(c, t),
    ensures
        satisfiable(c, t),
{
    match t {
        JobParameterType::Int => {
            let v = choose|v: i64| #[trigger] int_ok(c.ints, v);
            assert(suits(c, t, ValueView::Int(v)));
        },
        JobParameterType::Float => {
            let bits = choose|bits: u64| #[trigger] float_ok(c.floats, bits) && is_finite(bits);
            assert(suits(c, t, ValueView::Float(float_value(bits))));
        },
        JobParameterType::String | JobParameterType::Path => {
            let s = choose|s: Seq<char>|
                #[trigger] text_ok(c.allowed_texts, s) && length_ok(c.length, encode_utf8(s).len());
            assert(suits(c, t, ValueView::String(s)));
        },
        JobParameterType::Bool => {
            assert(suits(c, t, ValueView::Bool(true)));
        },
        JobParameterType::RangeExpr => {
            assert(suits(c, t, ValueView::RangeExpr(Seq::empty())));
        },
        JobParameterType::ListBool => {
            let n = found_count(c.length, true);
            assert(suits(c, t, ValueView::ListBool(Seq::new(n, |i: int| true))));
        },
        JobParameterType::ListInt => {
            let n = found_count(c.length, some_int(c.item_ints));
            let v = choose|v: i64| #[trigger] int_ok(c.item_ints, v);
            assert(suits(c, t, ValueView::ListInt(Seq::new(n, |i: int| v))));
        },
        JobParameterType::ListFloat => {
            let n = found_count(c.length, some_float(c.item_floats));
            let v = choose|v: u64| #[trigger] float_ok(c.item_floats, v) && is_finite(v);
            assert(suits(c, t, ValueView::ListFloat(Seq::new(n, |i: int| float_value(v)))));
        },
        JobParameterType::ListString | JobParameterType::ListPath => {
            let n = found_count(c.length, some_text_item(c.item_length, c.item_allowed_texts));
            let s = choose|s: Seq<char>|
                #[trigger] text_ok(c.item_allowed_texts, s) && length_ok(c.item_length, s.len());
            assert(suits(c, t, ValueView::ListString(Seq::new(n, |i: int| s))));
        },
        JobParameterType::ListListInt => {
            let n = found_count(c.length, some_inner(c));
            let s = choose|s: Seq<i64>| #[trigger] inner_ok(c, ValueView::ListInt(s));
            assert(suits(c, t, ValueView::ListList(Seq::new(n, |i: int| ValueView::ListInt(s)))));
        },
    }
}

proof fn value_leaves_itself(c: ConstraintsView, t: JobParameterType, v: ValueView)
    requires
        suits(c, t, v),
    ensures
        leaves_a_value(c, t),
{
    match v {
        ValueView::ListInt(s) => {
            if s.len() > 0 {
                assert(int_ok(c.item_ints, s[0]));
            }
        },
        ValueView::ListFloat(s) => {
            if s.len() > 0 {
                assert(float_ok(c.item_floats, s[0].number.bits));
            }
        },
        ValueView::ListString(s) => {
            if s.len() > 0 {
                assert(text_ok(c.item_allowed_texts, s[0]));
            }
        },
        ValueView::ListList(s) => {
            if s.len() > 0 {
                assert(s[0] is ListInt);
                assert(inner_ok(c, s[0]));
                assert(inner_ok(c, ValueView::ListInt(s[0]->ListInt_0)));
            }
        },
        _ => {},
    }
}

/// Whether some value of a declared type meets constraints.
pub fn can_be_met(c: &Constraints, param_type: JobParameterType) -> (r: bool)
    ensures
        r == satisfiable(c@, param_type),
{
    proof {
        satisfiable_exactly_when_a_value_is_left(c@, param_type);
    }
    match param_type {
        JobParameterType::Int => int_possible(&c.ints),
        JobParameterType::Float => float_possible(&c.floats),
        JobParameterType::String | JobParameterType::Path => text_possible(
            &c.length,
            &c.allowed_texts,
        ),
        JobParameterType::Bool | JobParameterType::RangeExpr => true,
        JobParameterType::ListBool => count_possible(&c.length, true),
        JobParameterType::ListInt => count_possible(&c.length, int_possible(&c.item_ints)),
        JobParameterType::ListFloat => count_possible(&c.length, float_possible(&c.item_floats)),
        JobParameterType::ListString | JobParameterType::ListPath => count_possible(
            &c.length,
            text_item_possible(&c.item_length, &c.item_allowed_texts),
        ),
        JobParameterType::ListListInt => count_possible(&c.length, inner_possible(c)),
    }
}

/// Constraints can be met exactly where there is a value in the form of the type against which
/// nothing is to be said, all of whose floats are finite and whose inner lists are lists of
/// integers.
pub proof fn met_by_some_value_without_a_complaint(
    c: ConstraintsView,
    t: JobParameterType,
    name: Seq<char>,
    v: ValueView,
)
    ensures
        is_of_type(v, t) && value_complaint(c, name, v) is None ==> satisfiable(c, t),
        satisfiable(c, t) ==> exists|w: ValueView|
            #![trigger value_complaint(c, name, w)]
            is_of_type(w, t) && value_complaint(c, name, w) is None,
        is_of_type(v, t) ==> matches_type(v, t),
        matches_type(v, t) && !(v is Float) && !(v is ListFloat) && !(v is ListList) ==> is_of_type(
            v,
            t,
        ),
        v is Float ==> (is_of_type(v, t) <==> t == JobParameterType::Float && is_finite(
            v->Float_0.number.bits,
        )),
        v is ListFloat ==> (is_of_type(v, t) <==> t == JobParameterType::ListFloat && forall|i: int|
            0 <= i < v->ListFloat_0.len() ==> is_finite(
                (#[trigger] v->ListFloat_0[i]).number.bits,
            )),
        v is ListList ==> (is_of_type(v, t) <==> t == JobParameterType::ListListInt && forall|
            i: int,
        |
            0 <= i < v->ListList_0.len() ==> #[trigger] v->ListList_0[i] is ListInt),
{
    complaint_exactly_when_refused(c, name, v);
    if is_of_type(v, t) && value_complaint(c, name, v) is None {
        assert(suits(c, t, v));
    }
    if satisfiable(c, t) {
        let w = choose|w: ValueView| #[trigger] suits(c, t, w);
        complaint_exactly_when_refused(c, name, w);
        assert(value_complaint(c, name, w) is None);
    }
}

} // verus!
