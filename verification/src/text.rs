//! Text as sequences of characters: numbers in decimal and hexadecimal, joining,
//! splitting, comparing and sorting.

use vstd::prelude::*;

verus! {

/// The decimal digit `d`.
pub open spec fn digit_char(d: int) -> char {
    (48 + d) as char
}

/// A natural number in decimal, without leading zeros.
pub open spec fn nat_text(n: nat) -> Seq<char>
    decreases n,
{
    if n < 10 {
        seq![digit_char(n as int)]
    } else {
        nat_text(n / 10).push(digit_char((n % 10) as int))
    }
}

/// An integer in decimal, with a minus sign where it is negative.
pub open spec fn int_text(i: int) -> Seq<char> {
    if i < 0 {
        seq!['-'] + nat_text((-i) as nat)
    } else {
        nat_text(i as nat)
    }
}

/// The digit `d` as text.
fn digit_str(d: u64) -> (s: &'static str)
    requires
        d < 10,
    ensures
        s@ == seq![digit_char(d as int)],
{
    proof {
        reveal_strlit("0");
        reveal_strlit("1");
        reveal_strlit("2");
        reveal_strlit("3");
        reveal_strlit("4");
        reveal_strlit("5");
        reveal_strlit("6");
        reveal_strlit("7");
        reveal_strlit("8");
        reveal_strlit("9");
    }
    match d {
        0 => "0",
        1 => "1",
        2 => "2",
        3 => "3",
        4 => "4",
        5 => "5",
        6 => "6",
        7 => "7",
        8 => "8",
        _ => "9",
    }
}

/// Append `n` in decimal.
pub fn push_u64(out: &mut String, n: u64)
    ensures
        final(out)@ == old(out)@ + nat_text(n as nat),
    decreases n,
{
    if n >= 10 {
        push_u64(out, n / 10);
    }
    out.append(digit_str(n % 10));
    assert(out@ =~= old(out)@ + nat_text(n as nat));
}

/// `n` in decimal.
pub fn u64_text(n: u64) -> (s: String)
    ensures
        s@ == nat_text(n as nat),
{
    let mut out = String::new();
    push_u64(&mut out, n);
    assert(out@ =~= nat_text(n as nat));
    out
}

/// `n` in decimal.
pub fn usize_text(n: usize) -> (s: String)
    ensures
        s@ == nat_text(n as nat),
{
    u64_text(n as u64)
}

/// `i` in decimal.
pub fn i64_text(i: i64) -> (s: String)
    ensures
        s@ == int_text(i as int),
{
    if i < 0 {
        let magnitude: u64 = if i == i64::MIN {
            9223372036854775808
        } else {
            (-i) as u64
        };
        let mut out = "-".to_owned();
        proof {
            reveal_strlit("-");
        }
        assert(out@ =~= seq!['-']);
        push_u64(&mut out, magnitude);
        out
    } else {
        u64_text(i as u64)
    }
}

/// Decimal texts of different numbers differ.
pub proof fn nat_text_injective(m: nat, n: nat)
    requires
        nat_text(m) == nat_text(n),
    ensures
        m == n,
    decreases m,
{
    nat_text_nonempty(m);
    nat_text_nonempty(n);
    assert(nat_text(m).last() == digit_char((m % 10) as int));
    assert(nat_text(n).last() == digit_char((n % 10) as int));
    if m >= 10 && n >= 10 {
        assert(nat_text(m).drop_last() =~= nat_text(m / 10));
        assert(nat_text(n).drop_last() =~= nat_text(n / 10));
        nat_text_injective(m / 10, n / 10);
    } else if m >= 10 {
        nat_text_nonempty(m / 10);
    } else if n >= 10 {
        nat_text_nonempty(n / 10);
    }
}

/// A decimal text has at least one digit.
proof fn nat_text_nonempty(n: nat)
    ensures
        nat_text(n).len() > 0,
        n < 10 <==> nat_text(n).len() == 1,
    decreases n,
{
    if n >= 10 {
        nat_text_nonempty(n / 10);
    }
}

/// The hexadecimal digit `d`, in lower case.
pub open spec fn hex_char(d: int) -> char {
    if d < 10 {
        (48 + d) as char
    } else {
        (87 + d) as char
    }
}

/// The lowest `width` hexadecimal digits of `n`, leading zeros kept.
pub open spec fn hex_text(n: nat, width: nat) -> Seq<char>
    decreases width,
{
    if width == 0 {
        Seq::empty()
    } else {
        hex_text(n / 16, (width - 1) as nat).push(hex_char((n % 16) as int))
    }
}

/// How many numbers have `width` hexadecimal digits.
pub open spec fn hex_limit(width: nat) -> nat
    decreases width,
{
    if width == 0 {
        1
    } else {
        16 * hex_limit((width - 1) as nat)
    }
}

/// A hexadecimal text has as many digits as asked for.
pub proof fn hex_text_len(n: nat, width: nat)
    ensures
        hex_text(n, width).len() == width,
    decreases width,
{
    if width > 0 {
        hex_text_len(n / 16, (width - 1) as nat);
    }
}

/// Numbers that have enough digits have different hexadecimal texts.
pub proof fn hex_text_injective(a: nat, b: nat, width: nat)
    requires
        a < hex_limit(width),
        b < hex_limit(width),
        hex_text(a, width) == hex_text(b, width),
    ensures
        a == b,
    decreases width,
{
    if width > 0 {
        let w = (width - 1) as nat;
        let x = hex_text(a, width);
        let y = hex_text(b, width);
        assert(x.drop_last() =~= hex_text(a / 16, w));
        assert(y.drop_last() =~= hex_text(b / 16, w));
        assert(x.last() == hex_char((a % 16) as int));
        assert(y.last() == hex_char((b % 16) as int));
        hex_text_injective(a / 16, b / 16, w);
    }
}

/// The hexadecimal digit `d` as text.
fn hex_str(d: u128) -> (s: &'static str)
    requires
        d < 16,
    ensures
        s@ == seq![hex_char(d as int)],
{
    proof {
        reveal_strlit("a");
        reveal_strlit("b");
        reveal_strlit("c");
        reveal_strlit("d");
        reveal_strlit("e");
        reveal_strlit("f");
    }
    match d {
        10 => "a",
        11 => "b",
        12 => "c",
        13 => "d",
        14 => "e",
        15 => "f",
        _ => digit_str(d as u64),
    }
}

/// Append the lowest `width` hexadecimal digits of `n`.
pub fn push_hex(out: &mut String, n: u128, width: usize)
    ensures
        final(out)@ == old(out)@ + hex_text(n as nat, width as nat),
    decreases width,
{
    if width > 0 {
        push_hex(out, n / 16, width - 1);
        out.append(hex_str(n % 16));
    }
    assert(out@ =~= old(out)@ + hex_text(n as nat, width as nat));
}

/// The characters of `s`.
pub fn chars_of(s: &str) -> (v: Vec<char>)
    ensures
        v@ == s@,
{
    let mut v: Vec<char> = Vec::new();
    for c in it: s.chars()
        invariant
            it.seq() == s@,
            v@ == s@.take(it.index() as int),
    {
        v.push(c);
        assert(v@ =~= s@.take(it.index() + 1));
    }
    assert(v@ =~= s@);
    v
}

/// Whether two texts are the same.
pub fn str_eq(a: &str, b: &str) -> (same: bool)
    ensures
        same == (a@ == b@),
{
    let x = chars_of(a);
    let y = chars_of(b);
    if x.len() != y.len() {
        return false;
    }
    let mut i: usize = 0;
    while i < x.len()
        invariant
            i <= x.len() == y.len(),
            x@ == a@,
            y@ == b@,
            forall|k: int| 0 <= k < i ==> x@[k] == y@[k],
        decreases x.len() - i,
    {
        if x[i] != y[i] {
            assert(a@[i as int] != b@[i as int]);
            return false;
        }
        i += 1;
    }
    assert(a@ =~= b@);
    true
}

/// The texts of a list of strings.
pub open spec fn texts(v: Seq<String>) -> Seq<Seq<char>> {
    Seq::new(v.len(), |i: int| v[i]@)
}

/// A list without what came before.
pub open spec fn first_occurrences<A>(s: Seq<A>) -> Seq<A>
    decreases s.len(),
{
    if s.len() == 0 {
        Seq::empty()
    } else {
        let before = first_occurrences(s.drop_last());
        if before.contains(s.last()) {
            before
        } else {
            before.push(s.last())
        }
    }
}

/// Every member occurs once among the first occurrences, and nothing else does.
pub proof fn first_occurrences_facts<A>(s: Seq<A>)
    ensures
        first_occurrences(s).no_duplicates(),
        forall|x: A| #[trigger] first_occurrences(s).contains(x) <==> s.contains(x),
    decreases s.len(),
{
    if s.len() > 0 {
        let front = s.drop_last();
        let before = first_occurrences(front);
        let all = first_occurrences(s);
        first_occurrences_facts(front);
        assert forall|x: A| #[trigger] all.contains(x) <==> s.contains(x) by {
            if front.contains(x) {
                let k = choose|k: int| 0 <= k < front.len() && front[k] == x;
                assert(s[k] == x);
            }
            assert(s[s.len() - 1] == s.last());
            if s.contains(x) && x != s.last() {
                let k = choose|k: int| 0 <= k < s.len() && s[k] == x;
                assert(front[k] == x);
            }
            if before.contains(x) {
                let k = choose|k: int| 0 <= k < before.len() && before[k] == x;
                assert(all[k] == x);
            }
            if !before.contains(s.last()) {
                assert(all[before.len() as int] == s.last());
                if all.contains(x) && x != s.last() {
                    let k = choose|k: int| 0 <= k < all.len() && all[k] == x;
                    assert(before[k] == x);
                }
            }
        }
        assert(all.no_duplicates()) by {
            if !before.contains(s.last()) {
                assert forall|a: int, b: int|
                    0 <= a < all.len() && 0 <= b < all.len() && a != b implies all[a]
                    != all[b] by {
                    if a < before.len() && b < before.len() {
                        assert(before[a] != before[b]);
                    } else if a < before.len() {
                        assert(before.contains(before[a]));
                    } else {
                        assert(before.contains(before[b]));
                    }
                }
            }
        }
    }
}

/// The view of a text that may be missing.
pub open spec fn opt_text(t: Option<String>) -> Option<Seq<char>> {
    match t {
        Some(t) => Some(t@),
        None => None,
    }
}

/// Whether `t` is one of a list of strings.
pub fn contains_text(v: &Vec<String>, t: &str) -> (found: bool)
    ensures
        found == texts(v@).contains(t@),
{
    let mut i: usize = 0;
    while i < v.len()
        invariant
            i <= v.len(),
            forall|k: int| 0 <= k < i ==> v@[k]@ != t@,
        decreases v.len() - i,
    {
        if str_eq(v[i].as_str(), t) {
            assert(texts(v@)[i as int] == t@);
            return true;
        }
        i += 1;
    }
    false
}

/// A list of strings, copied.
pub fn clone_texts(v: &Vec<String>) -> (r: Vec<String>)
    ensures
        r@ == v@,
{
    let mut r: Vec<String> = Vec::new();
    let mut i: usize = 0;
    while i < v.len()
        invariant
            i <= v.len(),
            r@ == v@.take(i as int),
        decreases v.len() - i,
    {
        r.push(v[i].clone());
        i += 1;
        assert(r@ =~= v@.take(i as int));
    }
    assert(r@ =~= v@);
    r
}

/// Texts with a separator between each two.
pub open spec fn joined(parts: Seq<Seq<char>>, sep: Seq<char>) -> Seq<char>
    decreases parts.len(),
{
    if parts.len() == 0 {
        Seq::empty()
    } else if parts.len() == 1 {
        parts[0]
    } else {
        joined(parts.drop_last(), sep) + sep + parts.last()
    }
}

/// Join strings with a separator.
pub fn join_texts(parts: &Vec<String>, sep: &str) -> (out: String)
    ensures
        out@ == joined(texts(parts@), sep@),
{
    let mut out = String::new();
    let mut i: usize = 0;
    while i < parts.len()
        invariant
            i <= parts.len(),
            out@ == joined(texts(parts@).take(i as int), sep@),
        decreases parts.len() - i,
    {
        let ghost before = texts(parts@).take(i as int);
        let ghost after = texts(parts@).take(i + 1);
        assert(after.drop_last() =~= before);
        assert(after.last() == parts@[i as int]@);
        if i > 0 {
            out.append(sep);
        }
        out.append(parts[i].as_str());
        assert(out@ =~= joined(after, sep@));
        i += 1;
    }
    assert(texts(parts@).take(parts.len() as int) =~= texts(parts@));
    out
}

/// Character-by-character order of texts, a prefix before what it begins.
pub open spec fn text_le(a: Seq<char>, b: Seq<char>) -> bool
    decreases a.len(),
{
    a.len() == 0 || (b.len() > 0 && (a[0] < b[0] || (a[0] == b[0] && text_le(
        a.drop_first(),
        b.drop_first(),
    ))))
}

/// Whether `a` comes no later than `b`.
pub fn str_le(a: &str, b: &str) -> (r: bool)
    ensures
        r == text_le(a@, b@),
{
    let x = chars_of(a);
    let y = chars_of(b);
    let mut i: usize = 0;
    assert(a@.skip(0) =~= a@ && b@.skip(0) =~= b@);
    while i < x.len()
        invariant
            i <= x.len(),
            i <= y.len(),
            x@ == a@,
            y@ == b@,
            text_le(a@, b@) == text_le(a@.skip(i as int), b@.skip(i as int)),
        decreases x.len() - i,
    {
        let ghost xs = a@.skip(i as int);
        let ghost ys = b@.skip(i as int);
        if i >= y.len() {
            return false;
        }
        assert(xs[0] == x@[i as int] && ys[0] == y@[i as int]);
        if x[i] < y[i] {
            return true;
        }
        if x[i] != y[i] {
            return false;
        }
        assert(xs.drop_first() =~= a@.skip(i + 1));
        assert(ys.drop_first() =~= b@.skip(i + 1));
        i += 1;
    }
    assert(a@.skip(i as int).len() == 0);
    true
}

/// A text put into a sorted list, behind all that come no later.
pub open spec fn insert_text(s: Seq<Seq<char>>, t: Seq<char>) -> Seq<Seq<char>>
    decreases s.len(),
{
    if s.len() == 0 || text_le(s.last(), t) {
        s.push(t)
    } else {
        insert_text(s.drop_last(), t).push(s.last())
    }
}

/// Texts in order.
pub open spec fn sorted_texts(s: Seq<Seq<char>>) -> Seq<Seq<char>>
    decreases s.len(),
{
    if s.len() == 0 {
        s
    } else {
        insert_text(sorted_texts(s.drop_last()), s.last())
    }
}

/// Inserting is putting the text at the first place from the end that suits it.
proof fn insert_text_at(s: Seq<Seq<char>>, t: Seq<char>, at: int)
    requires
        0 <= at <= s.len(),
        at == 0 || text_le(s[at - 1], t),
        forall|k: int| at <= k < s.len() ==> !text_le(#[trigger] s[k], t),
    ensures
        insert_text(s, t) == s.insert(at, t),
    decreases s.len(),
{
    if at == s.len() {
        assert(s.insert(at, t) =~= s.push(t));
    } else {
        insert_text_at(s.drop_last(), t, at);
        assert(s.insert(at, t) =~= s.drop_last().insert(at, t).push(s.last()));
    }
}

/// Sort strings by their characters.
pub fn sort_texts(v: &Vec<String>) -> (r: Vec<String>)
    ensures
        texts(r@) == sorted_texts(texts(v@)),
{
    let mut r: Vec<String> = Vec::new();
    let mut i: usize = 0;
    assert(texts(r@) =~= sorted_texts(texts(v@).take(0)));
    while i < v.len()
        invariant
            i <= v.len(),
            r.len() == i,
            texts(r@) == sorted_texts(texts(v@).take(i as int)),
        decreases v.len() - i,
    {
        let mut at: usize = r.len();
        while at > 0 && !str_le(r[at - 1].as_str(), v[i].as_str())
            invariant
                i < v.len(),
                at <= r.len(),
                forall|k: int| at <= k < r.len() ==> !text_le(#[trigger] r@[k]@, v@[i as int]@),
            decreases at,
        {
            at -= 1;
        }
        let ghost before = r@;
        r.insert(at, v[i].clone());
        proof {
            insert_text_at(texts(before), v@[i as int]@, at as int);
            assert(texts(r@) =~= texts(before).insert(at as int, v@[i as int]@));
            let upto = texts(v@).take(i + 1);
            assert(upto.drop_last() =~= texts(v@).take(i as int));
        }
        i += 1;
    }
    assert(texts(v@).take(v.len() as int) =~= texts(v@));
    r
}

/// Every text comes no later than itself.
pub proof fn text_le_reflexive(a: Seq<char>)
    ensures
        text_le(a, a),
    decreases a.len(),
{
    if a.len() > 0 {
        text_le_reflexive(a.drop_first());
    }
}

/// Texts that come no later than each other are the same.
pub proof fn text_le_antisymmetric(a: Seq<char>, b: Seq<char>)
    requires
        text_le(a, b),
        text_le(b, a),
    ensures
        a == b,
    decreases a.len(),
{
    if a.len() > 0 {
        text_le_antisymmetric(a.drop_first(), b.drop_first());
        assert(a =~= seq![a[0]] + a.drop_first());
        assert(b =~= seq![b[0]] + b.drop_first());
    } else {
        assert(a =~= b);
    }
}

/// The order of texts is transitive.
pub proof fn text_le_transitive(a: Seq<char>, b: Seq<char>, c: Seq<char>)
    requires
        text_le(a, b),
        text_le(b, c),
    ensures
        text_le(a, c),
    decreases a.len(),
{
    if a.len() > 0 && a[0] == b[0] && b[0] == c[0] {
        text_le_transitive(a.drop_first(), b.drop_first(), c.drop_first());
    }
}

/// Of two texts, one comes no later than the other.
pub proof fn text_le_total(a: Seq<char>, b: Seq<char>)
    ensures
        text_le(a, b) || text_le(b, a),
    decreases a.len(),
{
    if a.len() > 0 && b.len() > 0 && a[0] == b[0] {
        text_le_total(a.drop_first(), b.drop_first());
    }
}

/// A text comes no later than what it begins.
pub proof fn text_le_prefix(a: Seq<char>, rest: Seq<char>)
    ensures
        text_le(a, a + rest),
    decreases a.len(),
{
    if a.len() > 0 {
        text_le_prefix(a.drop_first(), rest);
        assert((a + rest).drop_first() =~= a.drop_first() + rest);
    }
}

/// Whether a list of texts is in order.
pub open spec fn in_order(s: Seq<Seq<char>>) -> bool {
    forall|i: int, j: int| 0 <= i <= j < s.len() ==> text_le(#[trigger] s[i], #[trigger] s[j])
}

proof fn insert_text_facts(s: Seq<Seq<char>>, t: Seq<char>)
    ensures
        insert_text(s, t).len() == s.len() + 1,
        insert_text(s, t).to_multiset() =~= s.to_multiset().insert(t),
        in_order(s) ==> in_order(insert_text(s, t)),
        forall|i: int|
            0 <= i < s.len() + 1 ==> (#[trigger] insert_text(s, t)[i] == t || s.contains(
                insert_text(s, t)[i],
            )),
    decreases s.len(),
{
    broadcast use vstd::seq_lib::group_to_multiset_ensures;

    if s.len() == 0 || text_le(s.last(), t) {
        text_le_reflexive(t);
        if in_order(s) && s.len() > 0 {
            assert forall|i: int| 0 <= i < s.len() implies text_le(#[trigger] s[i], t) by {
                text_le_transitive(s[i], s.last(), t);
            }
        }
        assert forall|i: int| 0 <= i < s.len() + 1 implies (#[trigger] insert_text(s, t)[i] == t
            || s.contains(insert_text(s, t)[i])) by {
            if i < s.len() {
                assert(s.contains(s[i]));
            }
        }
    } else {
        let front = s.drop_last();
        let r = insert_text(front, t);
        insert_text_facts(front, t);
        text_le_total(s.last(), t);
        text_le_reflexive(s.last());
        assert(s =~= front.push(s.last()));
        assert(s.contains(s.last()));
        assert forall|i: int| 0 <= i < r.len() implies (#[trigger] r[i] == t || s.contains(r[i])) by {
            if r[i] != t {
                let k = choose|k: int| 0 <= k < front.len() && front[k] == r[i];
                assert(s[k] == r[i]);
            }
        }
        if in_order(s) {
            assert(in_order(front));
            assert forall|i: int| 0 <= i < r.len() implies text_le(#[trigger] r[i], s.last()) by {
                if r[i] != t {
                    let k = choose|k: int| 0 <= k < front.len() && front[k] == r[i];
                    assert(s[k] == r[i]);
                }
            }
            assert(in_order(insert_text(s, t)));
        }
    }
}

/// Sorting keeps the texts, each as often as it occurs, and leaves them in order.
pub proof fn sorted_texts_facts(s: Seq<Seq<char>>)
    ensures
        in_order(sorted_texts(s)),
        sorted_texts(s).to_multiset() =~= s.to_multiset(),
        sorted_texts(s).len() == s.len(),
        forall|t: Seq<char>| #[trigger] sorted_texts(s).contains(t) <==> s.contains(t),
    decreases s.len(),
{
    broadcast use vstd::seq_lib::group_to_multiset_ensures;

    if s.len() > 0 {
        sorted_texts_facts(s.drop_last());
        insert_text_facts(sorted_texts(s.drop_last()), s.last());
        assert(s =~= s.drop_last().push(s.last()));
    }
    assert forall|t: Seq<char>| #[trigger] sorted_texts(s).contains(t) <==> s.contains(t) by {
        assert(sorted_texts(s).to_multiset().count(t) == s.to_multiset().count(t));
    }
}

/// Whether `c` is a decimal digit.
pub open spec fn is_digit(c: char) -> bool {
    '0' <= c <= '9'
}

/// The number that decimal digits stand for.
pub open spec fn digits_value(s: Seq<char>) -> nat
    decreases s.len(),
{
    if s.len() == 0 {
        0
    } else {
        digits_value(s.drop_last()) * 10 + (s.last() as nat - 48) as nat
    }
}

/// The text behind a leading sign.
pub open spec fn unsigned_part(s: Seq<char>) -> Seq<char> {
    if s.len() > 0 && (s[0] == '-' || s[0] == '+') {
        s.skip(1)
    } else {
        s
    }
}

/// The number that an integer literal stands for.
pub open spec fn literal_value(s: Seq<char>) -> int {
    if s.len() > 0 && s[0] == '-' {
        -(digits_value(unsigned_part(s)) as int)
    } else {
        digits_value(unsigned_part(s)) as int
    }
}

/// Whether a text is an integer that fits in 64 bits: a sign or none, then digits only.
pub open spec fn is_i64_literal(s: Seq<char>) -> bool {
    &&& unsigned_part(s).len() > 0
    &&& forall|i: int| 0 <= i < unsigned_part(s).len() ==> is_digit(#[trigger] unsigned_part(s)[i])
    &&& i64::MIN <= literal_value(s) <= i64::MAX
}

proof fn digits_value_grows(s: Seq<char>, n: int)
    requires
        0 <= n <= s.len(),
    ensures
        digits_value(s.take(n)) <= digits_value(s),
    decreases s.len() - n,
{
    if n == s.len() {
        assert(s.take(n) =~= s);
    } else {
        digits_value_grows(s, n + 1);
        assert(s.take(n + 1).drop_last() =~= s.take(n));
    }
}

/// Read an integer literal.
pub fn parse_i64(s: &str) -> (r: Option<i64>)
    ensures
        r is Some <==> is_i64_literal(s@),
        r matches Some(v) ==> v == literal_value(s@),
{
    let c = chars_of(s);
    let signed: bool = c.len() > 0 && (c[0] == '-' || c[0] == '+');
    let negative: bool = c.len() > 0 && c[0] == '-';
    let start: usize = if signed { 1 } else { 0 };
    let ghost digits = unsigned_part(s@);
    if start == c.len() {
        return None;
    }
    let mut value: u64 = 0;
    let mut i: usize = start;
    assert(digits_value(digits.take(0)) == 0);
    while i < c.len()
        invariant
            start <= i <= c.len(),
            start <= 1,
            c@ == s@,
            digits == unsigned_part(s@),
            digits == s@.skip(start as int),
            value == digits_value(digits.take(i - start)),
            value <= 9223372036854775808,
            negative == (s@.len() > 0 && s@[0] == '-'),
            forall|k: int| 0 <= k < i - start ==> is_digit(#[trigger] digits[k]),
        decreases c.len() - i,
    {
        let d = c[i];
        assert(digits[i - start] == d);
        assert(digits.take(i + 1 - start).drop_last() =~= digits.take(i - start));
        assert(digits.take(i + 1 - start).last() == d);
        if d < '0' || '9' < d {
            return None;
        }
        let digit: u64 = d as u64 - 48;
        proof {
            digits_value_grows(digits, i + 1 - start);
        }
        if value > 922337203685477580 || value * 10 + digit > 9223372036854775808 {
            return None;
        }
        value = value * 10 + digit;
        i += 1;
    }
    assert(digits.take(digits.len() as int) =~= digits);
    if negative {
        if value == 9223372036854775808 {
            Some(i64::MIN)
        } else {
            Some(-(value as i64))
        }
    } else if value == 9223372036854775808 {
        None
    } else {
        Some(value as i64)
    }
}

/// A further digit makes a number ten times as large and adds its own value.
pub proof fn digits_count_by_tens(s: Seq<char>, c: char)
    requires
        '0' <= c <= '9',
    ensures
        digits_value(Seq::empty()) == 0,
        digits_value(s.push(c)) == 10 * digits_value(s) + (c as int - '0' as int),
{
    assert(s.push(c).drop_last() =~= s);
}

/// A natural number in decimal consists of digits that stand for it, and begins with a zero
/// only where it is zero.
pub proof fn decimal_digits_stand_for_the_number(n: nat)
    ensures
        nat_text(n).len() > 0,
        forall|i: int| 0 <= i < nat_text(n).len() ==> '0' <= #[trigger] nat_text(n)[i] <= '9',
        digits_value(nat_text(n)) == n,
        nat_text(n)[0] == '0' ==> n == 0,
        n == 0 ==> nat_text(n).len() == 1,
    decreases n,
{
    if n < 10 {
        assert(nat_text(n).drop_last() =~= Seq::empty());
        assert(digits_value(Seq::empty()) == 0);
        assert(digits_value(nat_text(n)) == digits_value(nat_text(n).drop_last()) * 10 + n);
    } else {
        let front = nat_text(n / 10);
        decimal_digits_stand_for_the_number(n / 10);
        digits_count_by_tens(front, digit_char((n % 10) as int));
        assert(nat_text(n)[0] == front[0]);
        assert forall|i: int| 0 <= i < nat_text(n).len() implies '0' <= #[trigger] nat_text(n)[i]
            <= '9' by {
            if i < front.len() {
                assert(nat_text(n)[i] == front[i]);
            }
        }
    }
}

/// A minus sign turns the number that digits stand for, and a plus sign changes nothing.
pub proof fn signs_turn_a_number(s: Seq<char>)
    requires
        forall|i: int| 0 <= i < s.len() ==> '0' <= #[trigger] s[i] <= '9',
    ensures
        literal_value(s) == digits_value(s),
        literal_value(seq!['+'] + s) == digits_value(s),
        literal_value(seq!['-'] + s) == -digits_value(s),
{
    assert((seq!['+'] + s).skip(1) =~= s);
    assert((seq!['-'] + s).skip(1) =~= s);
}

/// A text is an integer literal exactly where it consists of digits, at least one, behind a
/// sign or none, and stands for a number of 64 bits.
pub proof fn integer_literals_are_signed_digits(s: Seq<char>)
    ensures
        is_i64_literal(s) <==> {
            let from: int = if s.len() > 0 && (s[0] == '+' || s[0] == '-') {
                1
            } else {
                0
            };
            &&& from < s.len()
            &&& forall|i: int| from <= i < s.len() ==> '0' <= #[trigger] s[i] <= '9'
            &&& -0x8000_0000_0000_0000 <= literal_value(s) <= 0x7fff_ffff_ffff_ffff
        },
{
    let from: int = if s.len() > 0 && (s[0] == '+' || s[0] == '-') {
        1
    } else {
        0
    };
    let rest = unsigned_part(s);
    assert(rest =~= s.skip(from));
    if is_i64_literal(s) {
        assert forall|i: int| from <= i < s.len() implies '0' <= #[trigger] s[i] <= '9' by {
            assert(is_digit(rest[i - from]));
        }
    }
    if forall|i: int| from <= i < s.len() ==> '0' <= #[trigger] s[i] <= '9' {
        assert forall|i: int| 0 <= i < rest.len() implies is_digit(#[trigger] rest[i]) by {
            assert(rest[i] == s[i + from]);
        }
    }
}

/// An integer in decimal is an integer literal that stands for it.
pub proof fn decimal_text_is_read_back(i: i64)
    ensures
        is_i64_literal(int_text(i as int)),
        literal_value(int_text(i as int)) == i,
        int_text(i as int)[0] == '-' <==> i < 0,
{
    let n: nat = if i < 0 {
        (-(i as int)) as nat
    } else {
        i as nat
    };
    decimal_digits_stand_for_the_number(n);
    signs_turn_a_number(nat_text(n));
    integer_literals_are_signed_digits(int_text(i as int));
    if i < 0 {
        let t = int_text(i as int);
        assert forall|k: int| 1 <= k < t.len() implies '0' <= #[trigger] t[k] <= '9' by {
            assert(t[k] == nat_text(n)[k - 1]);
        }
    }
}

/// The value of a hexadecimal digit in lower case.
pub open spec fn hex_digit_value(c: char) -> int {
    if '0' <= c <= '9' {
        c as int - '0' as int
    } else {
        c as int - 'a' as int + 10
    }
}

/// The number that hexadecimal digits stand for.
pub open spec fn hex_value(s: Seq<char>) -> int
    decreases s.len(),
{
    if s.len() == 0 {
        0
    } else {
        16 * hex_value(s.drop_last()) + hex_digit_value(s.last())
    }
}

/// A number in hexadecimal consists of digits and small letters up to f that stand for it,
/// where there are enough of them.
pub proof fn hexadecimal_digits_stand_for_the_number(n: nat, width: nat)
    ensures
        forall|i: int|
            0 <= i < hex_text(n, width).len() ==> '0' <= #[trigger] hex_text(n, width)[i] <= '9'
                || 'a' <= hex_text(n, width)[i] <= 'f',
        n < hex_limit(width) ==> hex_value(hex_text(n, width)) == n,
    decreases width,
{
    if width > 0 {
        let w = (width - 1) as nat;
        let front = hex_text(n / 16, w);
        let all = hex_text(n, width);
        hexadecimal_digits_stand_for_the_number(n / 16, w);
        assert(all.drop_last() =~= front);
        assert forall|i: int| 0 <= i < all.len() implies '0' <= #[trigger] all[i] <= '9' || 'a'
            <= all[i] <= 'f' by {
            if i < front.len() {
                assert(all[i] == front[i]);
            }
        }
    }
}

/// Nothing joined is empty, one text joined is that text, and two lists joined stand with one
/// separator between them.
pub proof fn joining_puts_separators_between(
    a: Seq<Seq<char>>,
    b: Seq<Seq<char>>,
    t: Seq<char>,
    sep: Seq<char>,
)
    ensures
        joined(Seq::empty(), sep) == Seq::<char>::empty(),
        joined(seq![t], sep) == t,
        a.len() > 0 && b.len() > 0 ==> joined(a + b, sep) == joined(a, sep) + sep + joined(b, sep),
    decreases b.len(),
{
    if a.len() > 0 && b.len() > 0 {
        assert((a + b).drop_last() =~= a + b.drop_last());
        if b.len() == 1 {
            assert(a + b.drop_last() =~= a);
        } else {
            joining_puts_separators_between(a, b.drop_last(), t, sep);
        }
        assert(joined(a + b, sep) =~= joined(a, sep) + sep + joined(b, sep));
    }
}

/// Of two texts that differ, the one with the smaller character at the first difference comes
/// first.
pub proof fn first_difference_decides(
    common: Seq<char>,
    x: char,
    a: Seq<char>,
    y: char,
    b: Seq<char>,
)
    requires
        x != y,
    ensures
        text_le(common + seq![x] + a, common + seq![y] + b) <==> x < y,
    decreases common.len(),
{
    let p = common + seq![x] + a;
    let q = common + seq![y] + b;
    if common.len() > 0 {
        let rest = common.drop_first();
        assert(p.drop_first() =~= rest + seq![x] + a);
        assert(q.drop_first() =~= rest + seq![y] + b);
        first_difference_decides(rest, x, a, y, b);
    } else {
        assert(p[0] == x);
        assert(q[0] == y);
    }
}

/// The first occurrences of the beginning of a list begin those of the list, and a list that
/// holds nothing twice is its own.
pub proof fn first_occurrences_keep_the_order<A>(a: Seq<A>, b: Seq<A>)
    ensures
        first_occurrences(a).is_prefix_of(first_occurrences(a + b)),
        a.no_duplicates() ==> first_occurrences(a) == a,
    decreases a.len() + b.len(),
{
    if b.len() > 0 {
        first_occurrences_keep_the_order(a, b.drop_last());
        assert((a + b).drop_last() =~= a + b.drop_last());
        let x = first_occurrences(a);
        let y = first_occurrences(a + b.drop_last());
        let z = first_occurrences(a + b);
        assert(x =~= y.subrange(0, x.len() as int));
        assert(x =~= z.subrange(0, x.len() as int));
    } else {
        assert(a + b =~= a);
        let x = first_occurrences(a);
        assert(x =~= x.subrange(0, x.len() as int));
        if a.len() > 0 && a.no_duplicates() {
            let front = a.drop_last();
            assert forall|i: int, j: int|
                0 <= i < front.len() && 0 <= j < front.len() && i != j implies front[i]
                != front[j] by {
                assert(a[i] != a[j]);
            }
            first_occurrences_keep_the_order(front, Seq::empty());
            assert(!front.contains(a.last())) by {
                if front.contains(a.last()) {
                    let i = choose|i: int| 0 <= i < front.len() && front[i] == a.last();
                    assert(a[i] != a[a.len() - 1]);
                }
            }
            assert(first_occurrences(a) =~= a);
        }
    }
}

/// What first occurrences in a second list add to those in a first comes from the second list,
/// is new, and is in order where the second list is.
pub proof fn later_occurrences_stay_in_order(a: Seq<Seq<char>>, b: Seq<Seq<char>>)
    ensures
        ({
            let head = first_occurrences(a);
            let all = first_occurrences(a + b);
            let rest = all.skip(head.len() as int);
            &&& head.len() <= all.len()
            &&& all.take(head.len() as int) == head
            &&& forall|i: int|
                0 <= i < rest.len() ==> b.contains(#[trigger] rest[i]) && !a.contains(rest[i])
            &&& in_order(b) ==> in_order(rest)
        }),
    decreases b.len(),
{
    let head = first_occurrences(a);
    let all = first_occurrences(a + b);
    let n = head.len() as int;
    first_occurrences_facts(a);
    if b.len() == 0 {
        assert(a + b =~= a);
        assert(all.take(n) =~= head);
    } else {
        let front = b.drop_last();
        let before = first_occurrences(a + front);
        assert((a + b).drop_last() =~= a + front);
        later_occurrences_stay_in_order(a, front);
        first_occurrences_facts(a + front);
        let rest = all.skip(n);
        let known = before.skip(n);
        assert(before.take(n) =~= head);
        assert(all.take(n) =~= before.take(n));
        assert forall|i: int| 0 <= i < rest.len() implies b.contains(#[trigger] rest[i])
            && !a.contains(rest[i]) by {
            if i < known.len() {
                assert(rest[i] == known[i]);
                let k = choose|k: int| 0 <= k < front.len() && front[k] == known[i];
                assert(b[k] == rest[i]);
            } else {
                assert(rest[i] == b.last());
                assert(b[b.len() - 1] == b.last());
                if a.contains(b.last()) {
                    let k = choose|k: int| 0 <= k < a.len() && a[k] == b.last();
                    assert((a + front)[k] == b.last());
                }
            }
        }
        if in_order(b) {
            assert forall|i: int, j: int| 0 <= i <= j < front.len() implies text_le(
                #[trigger] front[i],
                #[trigger] front[j],
            ) by {
                assert(text_le(b[i], b[j]));
            }
            assert forall|i: int, j: int| 0 <= i <= j < rest.len() implies text_le(
                #[trigger] rest[i],
                #[trigger] rest[j],
            ) by {
                if j < known.len() {
                    assert(text_le(known[i], known[j]));
                } else if i < known.len() {
                    assert(rest[i] == known[i]);
                    let k = choose|k: int| 0 <= k < front.len() && front[k] == known[i];
                    assert(b[k] == rest[i]);
                    assert(text_le(b[k], b[b.len() - 1]));
                } else {
                    text_le_reflexive(rest[i]);
                }
            }
        }
    }
}

} // verus!
