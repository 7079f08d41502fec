//! Checking a value against what a parameter definition demands of it.

use vstd::prelude::*;
use vstd::utf8::encode_utf8;

use crate::params::floats::{equal, float_eq, float_lt, less, FloatNumber, FloatView, NumberView};
use crate::params::template::{
    bits_of, numbers, opt_texts, Constraints, ConstraintsView, FloatBounds, FloatBoundsView,
    IntBounds, IntBoundsView, LengthBounds,
};
use crate::params::values::{float_views, list_list_view, value_views, ExprValue, ValueView};
use crate::text::{
    contains_text, i64_text, int_text, nat_text, opt_text, push_u64, texts, usize_text,
};

verus! {

/// What is wrong with an integer under its limits, if anything is.
pub open spec fn int_fault(b: IntBoundsView, v: i64) -> Option<Seq<char>> {
    if b.min matches Some(min) && v < min {
        Some(" is less than minimum "@ + int_text(b.min->0 as int))
    } else if b.max matches Some(max) && v > max {
        Some(" exceeds maximum "@ + int_text(b.max->0 as int))
    } else if b.allowed matches Some(allowed) && !allowed.contains(v) {
        Some(" is not in allowed values"@)
    } else {
        None
    }
}

/// Whether a number equals one of a list of numbers.
pub open spec fn float_among(allowed: Seq<NumberView>, bits: u64) -> bool {
    exists|a: u64| #[trigger] bits_of(allowed).contains(a) && float_eq(a, bits)
}

/// What is wrong with a float under its limits, if anything is.
pub open spec fn float_fault(b: FloatBoundsView, bits: u64) -> Option<Seq<char>> {
    if b.min matches Some(min) && float_lt(bits, min.bits) {
        Some(" is less than minimum "@ + b.min->0.shown)
    } else if b.max matches Some(max) && float_lt(max.bits, bits) {
        Some(" exceeds maximum "@ + b.max->0.shown)
    } else if b.allowed matches Some(allowed) && !float_among(allowed, bits) {
        Some(" is not in allowed values"@)
    } else {
        None
    }
}

/// What is wrong with a length under its limits, if anything is.
pub open spec fn length_fault(b: LengthBounds, n: nat) -> Option<Seq<char>> {
    if b.min matches Some(min) && n < min {
        Some(" is less than minimum "@ + nat_text(b.min->0 as nat))
    } else if b.max matches Some(max) && n > max {
        Some(" exceeds maximum "@ + nat_text(b.max->0 as nat))
    } else {
        None
    }
}

/// What is wrong with a text under the allowed texts, if anything is.
pub open spec fn text_fault(allowed: Option<Seq<Seq<char>>>, t: Seq<char>) -> Option<Seq<char>> {
    if allowed matches Some(a) && !a.contains(t) {
        Some(" is not in allowed values"@)
    } else {
        None
    }
}

/// A fault of a parameter as it is reported: whose it is, of what, and the fault.
pub open spec fn complaint(
    name: Seq<char>,
    subject: Seq<char>,
    fault: Option<Seq<char>>,
) -> Option<Seq<char>> {
    match fault {
        Some(f) => Some("Parameter '"@ + name + "': "@ + subject + f),
        None => None,
    }
}

/// The first fault of two.
pub open spec fn either(a: Option<Seq<char>>, b: Option<Seq<char>>) -> Option<Seq<char>> {
    if a is Some {
        a
    } else {
        b
    }
}

/// The first fault of many.
pub open spec fn first_fault(s: Seq<Option<Seq<char>>>) -> Option<Seq<char>>
    decreases s.len(),
{
    if s.len() == 0 {
        None
    } else {
        either(s[0], first_fault(s.drop_first()))
    }
}

proof fn first_fault_at(s: Seq<Option<Seq<char>>>, i: int)
    requires
        0 <= i < s.len(),
        forall|k: int| 0 <= k < i ==> #[trigger] s[k] is None,
        s[i] is Some,
    ensures
        first_fault(s) == s[i],
    decreases s.len(),
{
    if i > 0 {
        assert forall|k: int| 0 <= k < i - 1 implies #[trigger] s.drop_first()[k] is None by {
            assert(s[k + 1] is None);
        }
        first_fault_at(s.drop_first(), i - 1);
    }
}

/// There is no first fault exactly where there is none at all.
pub proof fn first_fault_none(s: Seq<Option<Seq<char>>>)
    ensures
        first_fault(s) is None <==> forall|k: int| 0 <= k < s.len() ==> #[trigger] s[k] is None,
    decreases s.len(),
{
    if s.len() > 0 {
        first_fault_none(s.drop_first());
        if first_fault(s) is None {
            assert forall|k: int| 0 <= k < s.len() implies #[trigger] s[k] is None by {
                if k > 0 {
                    assert(s.drop_first()[k - 1] is None);
                }
            }
        }
    }
}

/// `item[i]`, the place of a list item.
pub open spec fn item_place(i: int) -> Seq<char> {
    "item["@ + nat_text(i as nat) + "]"@
}

/// `item[i][j]`, the place of an item of an inner list.
pub open spec fn inner_place(i: int, j: int) -> Seq<char> {
    "item["@ + nat_text(i as nat) + "]["@ + nat_text(j as nat) + "]"@
}

/// The complaint about an item of a list of integers.
pub open spec fn int_item_complaint(
    c: ConstraintsView,
    name: Seq<char>,
    i: int,
    v: i64,
) -> Option<Seq<char>> {
    complaint(name, item_place(i) + " value "@ + int_text(v as int), int_fault(c.item_ints, v))
}

/// The complaint about an item of a list of floats.
pub open spec fn float_item_complaint(
    c: ConstraintsView,
    name: Seq<char>,
    i: int,
    v: FloatView,
) -> Option<Seq<char>> {
    complaint(
        name,
        item_place(i) + " value "@ + v.number.shown,
        float_fault(c.item_floats, v.number.bits),
    )
}

/// The complaint about an item of a list of strings. The length of an item is its number of
/// characters.
pub open spec fn text_item_complaint(
    c: ConstraintsView,
    name: Seq<char>,
    i: int,
    t: Seq<char>,
) -> Option<Seq<char>> {
    either(
        complaint(
            name,
            item_place(i) + " length "@ + nat_text(t.len()),
            length_fault(c.item_length, t.len()),
        ),
        complaint(
            name,
            item_place(i) + " value '"@ + t + "'"@,
            text_fault(c.item_allowed_texts, t),
        ),
    )
}

/// The complaint about an integer of an inner list.
pub open spec fn inner_int_complaint(
    c: ConstraintsView,
    name: Seq<char>,
    i: int,
    j: int,
    v: i64,
) -> Option<Seq<char>> {
    complaint(
        name,
        inner_place(i, j) + " value "@ + int_text(v as int),
        int_fault(c.item_item_ints, v),
    )
}

/// The complaint about an inner list. Only lists of integers are looked into.
pub open spec fn list_item_complaint(
    c: ConstraintsView,
    name: Seq<char>,
    i: int,
    v: ValueView,
) -> Option<Seq<char>> {
    match v {
        ValueView::ListInt(ints) => either(
            complaint(
                name,
                item_place(i) + " length "@ + nat_text(ints.len()),
                length_fault(c.item_length, ints.len()),
            ),
            first_fault(
                Seq::new(ints.len(), |j: int| inner_int_complaint(c, name, i, j, ints[j])),
            ),
        ),
        _ => None,
    }
}

/// The complaint about the number of items of a list.
pub open spec fn count_complaint(
    c: ConstraintsView,
    name: Seq<char>,
    n: nat,
) -> Option<Seq<char>> {
    complaint(name, "list length "@ + nat_text(n), length_fault(c.length, n))
}

/// The complaint about a scalar text. Its length is that of its UTF-8 form.
pub open spec fn text_complaint(
    c: ConstraintsView,
    name: Seq<char>,
    t: Seq<char>,
) -> Option<Seq<char>> {
    either(
        complaint(
            name,
            "value length "@ + nat_text(encode_utf8(t).len()),
            length_fault(c.length, encode_utf8(t).len()),
        ),
        complaint(name, "value '"@ + t + "'"@, text_fault(c.allowed_texts, t)),
    )
}

/// The first complaint about a value under the constraints of the parameter `name`, if
/// there is one.
pub open spec fn value_complaint(
    c: ConstraintsView,
    name: Seq<char>,
    v: ValueView,
) -> Option<Seq<char>> {
    match v {
        ValueView::Int(i) => complaint(
            name,
            "value "@ + int_text(i as int),
            int_fault(c.ints, i),
        ),
        ValueView::Float(f) => complaint(
            name,
            "value "@ + f.number.shown,
            float_fault(c.floats, f.number.bits),
        ),
        ValueView::String(t) => text_complaint(c, name, t),
        ValueView::Path(t) => text_complaint(c, name, t),
        ValueView::ListBool(s) => count_complaint(c, name, s.len()),
        ValueView::ListInt(s) => either(
            count_complaint(c, name, s.len()),
            first_fault(Seq::new(s.len(), |i: int| int_item_complaint(c, name, i, s[i]))),
        ),
        ValueView::ListFloat(s) => either(
            count_complaint(c, name, s.len()),
            first_fault(Seq::new(s.len(), |i: int| float_item_complaint(c, name, i, s[i]))),
        ),
        ValueView::ListString(s) => text_list_complaint(c, name, s),
        ValueView::ListPath(s) => text_list_complaint(c, name, s),
        ValueView::ListList(s) => either(
            count_complaint(c, name, s.len()),
            first_fault(Seq::new(s.len(), |i: int| list_item_complaint(c, name, i, s[i]))),
        ),
        ValueView::Null | ValueView::Bool(_) | ValueView::RangeExpr(_) => None,
    }
}

/// The first complaint about a list of texts, if there is one.
pub open spec fn text_list_complaint(
    c: ConstraintsView,
    name: Seq<char>,
    s: Seq<Seq<char>>,
) -> Option<Seq<char>> {
    either(
        count_complaint(c, name, s.len()),
        first_fault(Seq::new(s.len(), |i: int| text_item_complaint(c, name, i, s[i]))),
    )
}

/// Whether an integer stands in a list.
pub fn contains_int(v: &Vec<i64>, x: i64) -> (found: bool)
    ensures
        found == v@.contains(x),
{
    let mut i: usize = 0;
    while i < v.len()
        invariant
            i <= v.len(),
            forall|k: int| 0 <= k < i ==> v@[k] != x,
        decreases v.len() - i,
    {
        if v[i] == x {
            return true;
        }
        i += 1;
    }
    false
}

/// Whether a number equals one of a list.
fn contains_float(v: &Vec<FloatNumber>, bits: u64) -> (found: bool)
    ensures
        found == float_among(numbers(v@), bits),
{
    let ghost all = bits_of(numbers(v@));
    let mut i: usize = 0;
    while i < v.len()
        invariant
            i <= v.len(),
            all == bits_of(numbers(v@)),
            forall|k: int| 0 <= k < i ==> !float_eq(#[trigger] all[k], bits),
        decreases v.len() - i,
    {
        assert(all[i as int] == v@[i as int].bits);
        if equal(v[i].bits, bits) {
            assert(all.contains(all[i as int]));
            return true;
        }
        i += 1;
    }
    assert forall|a: u64| #[trigger] all.contains(a) implies !float_eq(a, bits) by {
        let k = choose|k: int| 0 <= k < all.len() && all[k] == a;
        assert(all[k] == a);
    }
    false
}

/// What is wrong with an integer under its limits, if anything is.
fn find_int_fault(b: &IntBounds, v: i64) -> (r: Option<String>)
    ensures
        opt_text(r) == int_fault(b@, v),
{
    if let Some(min) = b.min {
        if v < min {
            let mut m = " is less than minimum ".to_owned();
            m.append(i64_text(min).as_str());
            return Some(m);
        }
    }
    if let Some(max) = b.max {
        if v > max {
            let mut m = " exceeds maximum ".to_owned();
            m.append(i64_text(max).as_str());
            return Some(m);
        }
    }
    if let Some(allowed) = &b.allowed {
        if !contains_int(allowed, v) {
            return Some(" is not in allowed values".to_owned());
        }
    }
    None
}

/// What is wrong with a float under its limits, if anything is.
fn find_float_fault(b: &FloatBounds, bits: u64) -> (r: Option<String>)
    ensures
        opt_text(r) == float_fault(b@, bits),
{
    if let Some(min) = &b.min {
        if less(bits, min.bits) {
            let mut m = " is less than minimum ".to_owned();
            m.append(min.shown.as_str());
            return Some(m);
        }
    }
    if let Some(max) = &b.max {
        if less(max.bits, bits) {
            let mut m = " exceeds maximum ".to_owned();
            m.append(max.shown.as_str());
            return Some(m);
        }
    }
    if let Some(allowed) = &b.allowed {
        if !contains_float(allowed, bits) {
            return Some(" is not in allowed values".to_owned());
        }
    }
    None
}

/// What is wrong with a length under its limits, if anything is.
fn find_length_fault(b: &LengthBounds, n: usize) -> (r: Option<String>)
    ensures
        opt_text(r) == length_fault(*b, n as nat),
{
    if let Some(min) = b.min {
        if n < min {
            let mut m = " is less than minimum ".to_owned();
            m.append(usize_text(min).as_str());
            return Some(m);
        }
    }
    if let Some(max) = b.max {
        if n > max {
            let mut m = " exceeds maximum ".to_owned();
            m.append(usize_text(max).as_str());
            return Some(m);
        }
    }
    None
}

/// What is wrong with a text under the allowed texts, if anything is.
fn find_text_fault(allowed: &Option<Vec<String>>, t: &str) -> (r: Option<String>)
    ensures
        opt_text(r) == text_fault(opt_texts(*allowed), t@),
{
    if let Some(a) = allowed {
        if !contains_text(a, t) {
            return Some(" is not in allowed values".to_owned());
        }
    }
    None
}

/// Word a fault, if there is one.
fn complain(name: &str, subject: &str, fault: Option<String>) -> (r: Option<String>)
    ensures
        opt_text(r) == complaint(name@, subject@, opt_text(fault)),
{
    match fault {
        Some(f) => {
            let mut m = "Parameter '".to_owned();
            m.append(name);
            m.append("': ");
            m.append(subject);
            m.append(f.as_str());
            Some(m)
        },
        None => None,
    }
}

fn item_place_text(i: usize) -> (s: String)
    ensures
        s@ == item_place(i as int),
{
    let mut s = "item[".to_owned();
    push_u64(&mut s, i as u64);
    s.append("]");
    s
}

fn inner_place_text(i: usize, j: usize) -> (s: String)
    ensures
        s@ == inner_place(i as int, j as int),
{
    let mut s = "item[".to_owned();
    push_u64(&mut s, i as u64);
    s.append("][");
    push_u64(&mut s, j as u64);
    s.append("]");
    s
}

fn check_count(c: &Constraints, name: &str, n: usize) -> (r: Option<String>)
    ensures
        opt_text(r) == count_complaint(c@, name@, n as nat),
{
    let mut subject = "list length ".to_owned();
    push_u64(&mut subject, n as u64);
    complain(name, subject.as_str(), find_length_fault(&c.length, n))
}

fn check_text(c: &Constraints, name: &str, t: &str) -> (r: Option<String>)
    ensures
        opt_text(r) == text_complaint(c@, name@, t@),
{
    let n: usize = t.as_bytes().len();
    let mut subject = "value length ".to_owned();
    push_u64(&mut subject, n as u64);
    let first = complain(name, subject.as_str(), find_length_fault(&c.length, n));
    if first.is_some() {
        return first;
    }
    let mut subject = "value '".to_owned();
    subject.append(t);
    subject.append("'");
    complain(name, subject.as_str(), find_text_fault(&c.allowed_texts, t))
}

fn check_int_items(c: &Constraints, name: &str, items: &Vec<i64>) -> (r: Option<String>)
    ensures
        opt_text(r) == value_complaint(c@, name@, ValueView::ListInt(items@)),
{
    let first = check_count(c, name, items.len());
    if first.is_some() {
        return first;
    }
    let ghost all = Seq::new(items@.len(), |i: int| int_item_complaint(c@, name@, i, items@[i]));
    let mut i: usize = 0;
    while i < items.len()
        invariant
            i <= items.len(),
            all == Seq::new(items@.len(), |i: int| int_item_complaint(c@, name@, i, items@[i])),
            count_complaint(c@, name@, items@.len()) is None,
            forall|k: int| 0 <= k < i ==> #[trigger] all[k] is None,
        decreases items.len() - i,
    {
        let v: i64 = items[i];
        let mut subject = item_place_text(i);
        subject.append(" value ");
        subject.append(i64_text(v).as_str());
        let found = complain(name, subject.as_str(), find_int_fault(&c.item_ints, v));
        assert(all[i as int] == opt_text(found));
        if found.is_some() {
            proof {
                first_fault_at(all, i as int);
            }
            return found;
        }
        i += 1;
    }
    proof {
        first_fault_none(all);
    }
    None
}

fn check_float_items(
    c: &Constraints,
    name: &str,
    items: &Vec<crate::params::floats::Float64>,
) -> (r: Option<String>)
    ensures
        opt_text(r) == value_complaint(c@, name@, ValueView::ListFloat(float_views(items@))),
{
    let ghost views = float_views(items@);
    let first = check_count(c, name, items.len());
    if first.is_some() {
        return first;
    }
    let ghost all = Seq::new(views.len(), |i: int| float_item_complaint(c@, name@, i, views[i]));
    let mut i: usize = 0;
    while i < items.len()
        invariant
            i <= items.len(),
            views == float_views(items@),
            all == Seq::new(views.len(), |i: int| float_item_complaint(c@, name@, i, views[i])),
            count_complaint(c@, name@, items@.len()) is None,
            forall|k: int| 0 <= k < i ==> #[trigger] all[k] is None,
        decreases items.len() - i,
    {
        let v = &items[i].number;
        let mut subject = item_place_text(i);
        subject.append(" value ");
        subject.append(v.shown.as_str());
        let found = complain(name, subject.as_str(), find_float_fault(&c.item_floats, v.bits));
        assert(all[i as int] == opt_text(found));
        if found.is_some() {
            proof {
                first_fault_at(all, i as int);
            }
            return found;
        }
        i += 1;
    }
    proof {
        first_fault_none(all);
    }
    None
}

fn check_text_item(c: &Constraints, name: &str, i: usize, t: &str) -> (r: Option<String>)
    ensures
        opt_text(r) == text_item_complaint(c@, name@, i as int, t@),
{
    let n: usize = t.unicode_len();
    let mut subject = item_place_text(i);
    subject.append(" length ");
    push_u64(&mut subject, n as u64);
    let first = complain(name, subject.as_str(), find_length_fault(&c.item_length, n));
    if first.is_some() {
        return first;
    }
    let mut subject = item_place_text(i);
    subject.append(" value '");
    subject.append(t);
    subject.append("'");
    complain(name, subject.as_str(), find_text_fault(&c.item_allowed_texts, t))
}

fn check_text_items(c: &Constraints, name: &str, items: &Vec<String>) -> (r: Option<String>)
    ensures
        opt_text(r) == text_list_complaint(c@, name@, texts(items@)),
{
    let ghost views = texts(items@);
    let first = check_count(c, name, items.len());
    if first.is_some() {
        return first;
    }
    let ghost all = Seq::new(views.len(), |i: int| text_item_complaint(c@, name@, i, views[i]));
    let mut i: usize = 0;
    while i < items.len()
        invariant
            i <= items.len(),
            views == texts(items@),
            all == Seq::new(views.len(), |i: int| text_item_complaint(c@, name@, i, views[i])),
            count_complaint(c@, name@, items@.len()) is None,
            forall|k: int| 0 <= k < i ==> #[trigger] all[k] is None,
        decreases items.len() - i,
    {
        let found = check_text_item(c, name, i, items[i].as_str());
        assert(all[i as int] == opt_text(found));
        if found.is_some() {
            proof {
                first_fault_at(all, i as int);
            }
            return found;
        }
        i += 1;
    }
    proof {
        first_fault_none(all);
    }
    None
}

fn check_list_item(c: &Constraints, name: &str, i: usize, item: &ExprValue) -> (r: Option<String>)
    ensures
        opt_text(r) == list_item_complaint(c@, name@, i as int, item@),
{
    let ints = match item {
        ExprValue::ListInt(ints) => ints,
        _ => {
            return None;
        },
    };
    let mut subject = item_place_text(i);
    subject.append(" length ");
    push_u64(&mut subject, ints.len() as u64);
    let first = complain(name, subject.as_str(), find_length_fault(&c.item_length, ints.len()));
    if first.is_some() {
        return first;
    }
    let ghost all = Seq::new(
        ints@.len(),
        |j: int| inner_int_complaint(c@, name@, i as int, j, ints@[j]),
    );
    let mut j: usize = 0;
    while j < ints.len()
        invariant
            j <= ints.len(),
            item@ == ValueView::ListInt(ints@),
            all == Seq::new(
                ints@.len(),
                |j: int| inner_int_complaint(c@, name@, i as int, j, ints@[j]),
            ),
            length_fault(c@.item_length, ints@.len()) is None,
            forall|k: int| 0 <= k < j ==> #[trigger] all[k] is None,
        decreases ints.len() - j,
    {
        let v: i64 = ints[j];
        let mut subject = inner_place_text(i, j);
        subject.append(" value ");
        subject.append(i64_text(v).as_str());
        let found = complain(name, subject.as_str(), find_int_fault(&c.item_item_ints, v));
        assert(all[j as int] == opt_text(found));
        if found.is_some() {
            proof {
                first_fault_at(all, j as int);
            }
            return found;
        }
        j += 1;
    }
    proof {
        first_fault_none(all);
    }
    None
}

fn check_list_items(c: &Constraints, name: &str, items: &Vec<ExprValue>) -> (r: Option<String>)
    ensures
        opt_text(r) == value_complaint(c@, name@, ValueView::ListList(value_views(items@))),
{
    let ghost views = value_views(items@);
    let first = check_count(c, name, items.len());
    if first.is_some() {
        return first;
    }
    let ghost all = Seq::new(views.len(), |i: int| list_item_complaint(c@, name@, i, views[i]));
    let mut i: usize = 0;
    while i < items.len()
        invariant
            i <= items.len(),
            views == value_views(items@),
            all == Seq::new(views.len(), |i: int| list_item_complaint(c@, name@, i, views[i])),
            count_complaint(c@, name@, items@.len()) is None,
            forall|k: int| 0 <= k < i ==> #[trigger] all[k] is None,
        decreases items.len() - i,
    {
        let found = check_list_item(c, name, i, &items[i]);
        assert(all[i as int] == opt_text(found));
        if found.is_some() {
            proof {
                first_fault_at(all, i as int);
            }
            return found;
        }
        i += 1;
    }
    proof {
        first_fault_none(all);
    }
    None
}

/// The first complaint about a value under the constraints of the parameter `name`.
pub fn check_value(c: &Constraints, name: &str, value: &ExprValue) -> (r: Option<String>)
    ensures
        opt_text(r) == value_complaint(c@, name@, value@),
{
    match value {
        ExprValue::Int(i) => {
            let mut subject = "value ".to_owned();
            subject.append(i64_text(*i).as_str());
            complain(name, subject.as_str(), find_int_fault(&c.ints, *i))
        },
        ExprValue::Float(f) => {
            let mut subject = "value ".to_owned();
            subject.append(f.number.shown.as_str());
            complain(name, subject.as_str(), find_float_fault(&c.floats, f.number.bits))
        },
        ExprValue::String(t) => check_text(c, name, t.as_str()),
        ExprValue::Path { value: t } => check_text(c, name, t.as_str()),
        ExprValue::ListBool(s) => check_count(c, name, s.len()),
        ExprValue::ListInt(s) => check_int_items(c, name, s),
        ExprValue::ListFloat(s) => check_float_items(c, name, s),
        ExprValue::ListString(s) => check_text_items(c, name, s),
        ExprValue::ListPath(s) => check_text_items(c, name, s),
        ExprValue::ListList(s) => {
            proof {
                list_list_view(*s);
            }
            check_list_items(c, name, s)
        },
        ExprValue::Null | ExprValue::Bool(_) | ExprValue::RangeExpr(_) => None,
    }
}

/// What is said against an integer quotes it and the limit that it misses: the lower one where it
/// is below that, the upper one where it is above that, and no limit where it is only not allowed.
pub proof fn integer_is_quoted_with_its_limit(c: ConstraintsView, name: Seq<char>, v: i64)
    ensures
        ({
            let b = c.ints;
            let said = value_complaint(c, name, ValueView::Int(v));
            let head = "Parameter '"@ + name + "': "@ + ("value "@ + int_text(v as int));
            let low = b.min is Some && v < b.min->0;
            let high = b.max is Some && b.max->0 < v;
            &&& low ==> said == Some(head + (" is less than minimum "@ + int_text(b.min->0 as int)))
            &&& !low && high ==> said == Some(
                head + (" exceeds maximum "@ + int_text(b.max->0 as int)),
            )
            &&& !low && !high && b.allowed is Some && !b.allowed->0.contains(v) ==> said == Some(
                head + " is not in allowed values"@,
            )
        }),
{
}

/// What is said against a float quotes it and the limit that it misses, both as they print.
pub proof fn float_is_quoted_with_its_limit(c: ConstraintsView, name: Seq<char>, f: FloatView)
    ensures
        ({
            let b = c.floats;
            let said = value_complaint(c, name, ValueView::Float(f));
            let head = "Parameter '"@ + name + "': "@ + ("value "@ + f.number.shown);
            let low = b.min is Some && float_lt(f.number.bits, b.min->0.bits);
            let high = b.max is Some && float_lt(b.max->0.bits, f.number.bits);
            &&& low ==> said == Some(head + (" is less than minimum "@ + b.min->0.shown))
            &&& !low && high ==> said == Some(head + (" exceeds maximum "@ + b.max->0.shown))
            &&& !low && !high && said is Some ==> said == Some(
                head + " is not in allowed values"@,
            )
        }),
{
}

/// What is said against a text is first about its length, which is its number of bytes, and only
/// then about the text itself, which is quoted.
pub proof fn text_is_quoted_or_its_length(c: ConstraintsView, name: Seq<char>, t: Seq<char>)
    ensures
        ({
            let b = c.length;
            let n = encode_utf8(t).len();
            let said = value_complaint(c, name, ValueView::String(t));
            let head = "Parameter '"@ + name + "': "@;
            let low = b.min is Some && n < b.min->0;
            let high = b.max is Some && b.max->0 < n;
            &&& value_complaint(c, name, ValueView::Path(t)) == said
            &&& low ==> said == Some(
                head + ("value length "@ + nat_text(n)) + (" is less than minimum "@ + nat_text(
                    b.min->0 as nat,
                )),
            )
            &&& !low && high ==> said == Some(
                head + ("value length "@ + nat_text(n)) + (" exceeds maximum "@ + nat_text(
                    b.max->0 as nat,
                )),
            )
            &&& !low && !high && c.allowed_texts is Some && !c.allowed_texts->0.contains(t) ==> said
                == Some(head + ("value '"@ + t + "'"@) + " is not in allowed values"@)
        }),
{
}

/// What is said against a list is first about its number of items, whatever the items are, and
/// quotes that number and the limit that it misses.
pub proof fn number_of_items_comes_first(c: ConstraintsView, name: Seq<char>, v: ValueView, n: nat)
    requires
        v is ListBool ==> n == v->ListBool_0.len(),
        v is ListInt ==> n == v->ListInt_0.len(),
        v is ListFloat ==> n == v->ListFloat_0.len(),
        v is ListString ==> n == v->ListString_0.len(),
        v is ListPath ==> n == v->ListPath_0.len(),
        v is ListList ==> n == v->ListList_0.len(),
        v is ListBool || v is ListInt || v is ListFloat || v is ListString || v is ListPath || v
            is ListList,
    ensures
        ({
            let b = c.length;
            let said = value_complaint(c, name, v);
            let head = "Parameter '"@ + name + "': "@ + ("list length "@ + nat_text(n));
            let low = b.min is Some && n < b.min->0;
            let high = b.max is Some && b.max->0 < n;
            &&& low ==> said == Some(
                head + (" is less than minimum "@ + nat_text(b.min->0 as nat)),
            )
            &&& !low && high ==> said == Some(
                head + (" exceeds maximum "@ + nat_text(b.max->0 as nat)),
            )
        }),
{
}

/// Of the items of a list the first at fault is reported, by its place and with its value: an
/// integer with the limit for items that it misses.
pub proof fn first_item_at_fault_is_reported(
    c: ConstraintsView,
    name: Seq<char>,
    s: Seq<i64>,
    i: int,
)
    requires
        c.length.min is Some ==> c.length.min->0 <= s.len(),
        c.length.max is Some ==> s.len() <= c.length.max->0,
        0 <= i < s.len(),
        forall|k: int|
            0 <= k < i ==> (c.item_ints.min is Some ==> c.item_ints.min->0 <= #[trigger] s[k]) && (
            c.item_ints.max is Some ==> s[k] <= c.item_ints.max->0) && (c.item_ints.allowed is Some
                ==> c.item_ints.allowed->0.contains(s[k])),
    ensures
        ({
            let b = c.item_ints;
            let said = value_complaint(c, name, ValueView::ListInt(s));
            let head = "Parameter '"@ + name + "': "@ + ("item["@ + nat_text(i as nat) + "]"@
                + " value "@ + int_text(s[i] as int));
            let low = b.min is Some && s[i] < b.min->0;
            let high = b.max is Some && b.max->0 < s[i];
            &&& low ==> said == Some(
                head + (" is less than minimum "@ + int_text(b.min->0 as int)),
            )
            &&& !low && high ==> said == Some(
                head + (" exceeds maximum "@ + int_text(b.max->0 as int)),
            )
            &&& !low && !high && b.allowed is Some && !b.allowed->0.contains(s[i]) ==> said == Some(
                head + " is not in allowed values"@,
            )
        }),
{
    let all = Seq::new(s.len(), |k: int| int_item_complaint(c, name, k, s[k]));
    assert forall|k: int| 0 <= k < i implies #[trigger] all[k] is None by {
        assert(c.item_ints.min is Some ==> c.item_ints.min->0 <= s[k]);
    }
    if all[i] is Some {
        first_fault_at(all, i);
    }
}

/// Of the texts of a list the first at fault is reported, by its place: first for its length,
/// which is its number of characters, and then as a text that is not allowed.
pub proof fn first_text_at_fault_is_reported(
    c: ConstraintsView,
    name: Seq<char>,
    s: Seq<Seq<char>>,
    i: int,
)
    requires
        c.length.min is Some ==> c.length.min->0 <= s.len(),
        c.length.max is Some ==> s.len() <= c.length.max->0,
        0 <= i < s.len(),
        forall|k: int|
            0 <= k < i ==> (c.item_length.min is Some ==> c.item_length.min->0 <= (
            #[trigger] s[k]).len()) && (c.item_length.max is Some ==> s[k].len()
                <= c.item_length.max->0) && (c.item_allowed_texts is Some
                ==> c.item_allowed_texts->0.contains(s[k])),
    ensures
        ({
            let b = c.item_length;
            let n = s[i].len();
            let said = value_complaint(c, name, ValueView::ListString(s));
            let head = "Parameter '"@ + name + "': "@;
            let place = "item["@ + nat_text(i as nat) + "]"@;
            let low = b.min is Some && n < b.min->0;
            let high = b.max is Some && b.max->0 < n;
            &&& value_complaint(c, name, ValueView::ListPath(s)) == said
            &&& low ==> said == Some(
                head + (place + " length "@ + nat_text(n)) + (" is less than minimum "@ + nat_text(
                    b.min->0 as nat,
                )),
            )
            &&& !low && high ==> said == Some(
                head + (place + " length "@ + nat_text(n)) + (" exceeds maximum "@ + nat_text(
                    b.max->0 as nat,
                )),
            )
            &&& !low && !high && c.item_allowed_texts is Some && !c.item_allowed_texts->0.contains(
                s[i],
            ) ==> said == Some(
                head + (place + " value '"@ + s[i] + "'"@) + " is not in allowed values"@,
            )
        }),
{
    let all = Seq::new(s.len(), |k: int| text_item_complaint(c, name, k, s[k]));
    assert forall|k: int| 0 <= k < i implies #[trigger] all[k] is None by {
        assert(c.item_length.min is Some ==> c.item_length.min->0 <= s[k].len());
    }
    if all[i] is Some {
        first_fault_at(all, i);
    }
}

/// Of the floats of a list the first at fault is reported, by its place and with its value and
/// the limit that it misses, as they print.
pub proof fn first_float_at_fault_is_reported(
    c: ConstraintsView,
    name: Seq<char>,
    s: Seq<FloatView>,
    i: int,
)
    requires
        c.length.min is Some ==> c.length.min->0 <= s.len(),
        c.length.max is Some ==> s.len() <= c.length.max->0,
        0 <= i < s.len(),
        forall|k: int|
            0 <= k < i ==> float_fault(c.item_floats, (#[trigger] s[k]).number.bits) is None,
    ensures
        ({
            let b = c.item_floats;
            let said = value_complaint(c, name, ValueView::ListFloat(s));
            let head = "Parameter '"@ + name + "': "@ + ("item["@ + nat_text(i as nat) + "]"@
                + " value "@ + s[i].number.shown);
            let low = b.min is Some && float_lt(s[i].number.bits, b.min->0.bits);
            let high = b.max is Some && float_lt(b.max->0.bits, s[i].number.bits);
            &&& low ==> said == Some(head + (" is less than minimum "@ + b.min->0.shown))
            &&& !low && high ==> said == Some(head + (" exceeds maximum "@ + b.max->0.shown))
            &&& !low && !high && float_fault(b, s[i].number.bits) is Some ==> said == Some(
                head + " is not in allowed values"@,
            )
        }),
{
    let all = Seq::new(s.len(), |k: int| float_item_complaint(c, name, k, s[k]));
    assert forall|k: int| 0 <= k < i implies #[trigger] all[k] is None by {
        assert(float_fault(c.item_floats, s[k].number.bits) is None);
    }
    if all[i] is Some {
        first_fault_at(all, i);
    }
}

/// Of a list of lists the first inner list at fault is reported: for its number of integers, or
/// for the first of its integers at fault, by both places.
pub proof fn first_inner_list_at_fault_is_reported(
    c: ConstraintsView,
    name: Seq<char>,
    s: Seq<ValueView>,
    ints: Seq<i64>,
    i: int,
    j: int,
)
    requires
        c.length.min is Some ==> c.length.min->0 <= s.len(),
        c.length.max is Some ==> s.len() <= c.length.max->0,
        0 <= i < s.len(),
        s[i] == ValueView::ListInt(ints),
        forall|k: int| 0 <= k < i ==> list_item_complaint(c, name, k, #[trigger] s[k]) is None,
    ensures
        ({
            let b = c.item_length;
            let n = ints.len();
            let said = value_complaint(c, name, ValueView::ListList(s));
            let head = "Parameter '"@ + name + "': "@;
            let place = "item["@ + nat_text(i as nat) + "]"@;
            let low = b.min is Some && n < b.min->0;
            let high = b.max is Some && b.max->0 < n;
            let first = 0 <= j < n && forall|k: int|
                0 <= k < j ==> int_fault(c.item_item_ints, #[trigger] ints[k]) is None;
            &&& low ==> said == Some(
                head + (place + " length "@ + nat_text(n)) + (" is less than minimum "@ + nat_text(
                    b.min->0 as nat,
                )),
            )
            &&& !low && high ==> said == Some(
                head + (place + " length "@ + nat_text(n)) + (" exceeds maximum "@ + nat_text(
                    b.max->0 as nat,
                )),
            )
            &&& !low && !high && first && int_fault(c.item_item_ints, ints[j]) is Some ==> said
                == Some(
                head + ("item["@ + nat_text(i as nat) + "]["@ + nat_text(j as nat) + "]"@
                    + " value "@ + int_text(ints[j] as int)) + int_fault(
                    c.item_item_ints,
                    ints[j],
                )->0,
            )
        }),
{
    let all = Seq::new(s.len(), |k: int| list_item_complaint(c, name, k, s[k]));
    assert forall|k: int| 0 <= k < i implies #[trigger] all[k] is None by {
        assert(list_item_complaint(c, name, k, s[k]) is None);
    }
    let inner = Seq::new(ints.len(), |k: int| inner_int_complaint(c, name, i, k, ints[k]));
    if 0 <= j < ints.len() && (forall|k: int|
        0 <= k < j ==> int_fault(c.item_item_ints, #[trigger] ints[k]) is None) && int_fault(
        c.item_item_ints,
        ints[j],
    ) is Some {
        assert forall|k: int| 0 <= k < j implies #[trigger] inner[k] is None by {
            assert(int_fault(c.item_item_ints, ints[k]) is None);
        }
        first_fault_at(inner, j);
    }
    if all[i] is Some {
        first_fault_at(all, i);
    }
}

} // verus!
