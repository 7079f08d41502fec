//! The names of files: free names for copies, and names for files that are being written.

use vstd::prelude::*;

use crate::snapshots::download::FileConflictResolution;
use crate::text::{
    chars_of, contains_text, hex_char, hex_limit, hex_text, hex_text_injective, hex_text_len,
    hex_value, hexadecimal_digits_stand_for_the_number, nat_text, nat_text_injective, push_hex,
    push_u64, texts,
};

verus! {

/// The place of the last dot of a name, if it has one.
pub open spec fn last_dot(name: Seq<char>) -> Option<int>
    decreases name.len(),
{
    if name.len() == 0 {
        None
    } else if name.last() == '.' {
        Some(name.len() - 1)
    } else {
        last_dot(name.drop_last())
    }
}

/// Where the extension of a file name begins, with its dot: at the last dot, unless that is
/// the first character; else there is none. The names `.` and `..` have
/// neither stem nor extension.
pub open spec fn extension_start(name: Seq<char>) -> int {
    match last_dot(name) {
        Some(i) => if i > 0 {
            i
        } else {
            name.len() as int
        },
        None => name.len() as int,
    }
}

/// The names of a directory itself and of its parent, which are not names of files.
pub open spec fn is_dots(name: Seq<char>) -> bool {
    name == seq!['.'] || name == seq!['.', '.']
}

/// Whether a text is the name of a directory itself or of its parent.
fn only_dots(c: &Vec<char>) -> (r: bool)
    ensures
        r == is_dots(c@),
{
    if c.len() == 1 && c[0] == '.' {
        assert(c@ =~= seq!['.']);
        return true;
    }
    if c.len() == 2 && c[0] == '.' && c[1] == '.' {
        assert(c@ =~= seq!['.', '.']);
        return true;
    }
    false
}

/// A file name without its extension.
pub open spec fn stem(name: Seq<char>) -> Seq<char> {
    if is_dots(name) {
        Seq::empty()
    } else {
        name.take(extension_start(name))
    }
}

/// The extension of a file name, with its dot.
pub open spec fn extension(name: Seq<char>) -> Seq<char> {
    if is_dots(name) {
        Seq::empty()
    } else {
        name.skip(extension_start(name))
    }
}

/// The name of copy `i` of a file: the number stands between the stem and the extension.
pub open spec fn copy_name(name: Seq<char>, i: int) -> Seq<char> {
    stem(name) + " ("@ + nat_text(i as nat) + ")"@ + extension(name)
}

/// Split a file name into its stem and its extension.
fn split_name(name: &str) -> (r: (String, String))
    ensures
        r.0@ == stem(name@),
        r.1@ == extension(name@),
{
    let c = chars_of(name);
    let len: usize = c.len();
    if only_dots(&c) {
        let e = String::new();
        assert(e@ =~= Seq::empty());
        return (String::new(), e);
    }
    let mut n: usize = len;
    assert(name@.take(len as int) =~= name@);
    while n > 0 && c[n - 1] != '.'
        invariant
            n <= len == c.len(),
            c@ == name@,
            last_dot(name@) == last_dot(name@.take(n as int)),
        decreases n,
    {
        assert(name@.take(n as int).drop_last() =~= name@.take(n - 1));
        n -= 1;
    }
    let at: usize = if n > 1 {
        n - 1
    } else {
        len
    };
    assert(at == extension_start(name@)) by {
        if n > 0 {
            assert(name@.take(n as int).last() == '.');
        }
    }
    assert(name@.subrange(0, at as int) =~= name@.take(at as int));
    assert(name@.subrange(at as int, len as int) =~= name@.skip(at as int));
    (name.substring_char(0, at).to_owned(), name.substring_char(at, len).to_owned())
}

proof fn copy_names_differ(name: Seq<char>, i: int, j: int)
    requires
        0 <= i,
        0 <= j,
        copy_name(name, i) == copy_name(name, j),
    ensures
        i == j,
{
    let head = stem(name) + " ("@;
    let a = nat_text(i as nat);
    let b = nat_text(j as nat);
    let tail = ")"@ + extension(name);
    let x = copy_name(name, i);
    let y = copy_name(name, j);
    assert(x =~= head + a + tail);
    assert(y =~= head + b + tail);
    assert(a.len() == b.len());
    assert(a =~= x.subrange(head.len() as int, (head.len() + a.len()) as int));
    assert(b =~= y.subrange(head.len() as int, (head.len() + b.len()) as int));
    nat_text_injective(i as nat, j as nat);
}

/// The names of the first `n` copies, counted from 1.
spec fn copy_names(name: Seq<char>, n: nat) -> Seq<Seq<char>> {
    Seq::new(n, |k: int| copy_name(name, k + 1))
}

/// Of one copy more than there are taken names, one is free.
proof fn some_copy_is_free(name: Seq<char>, taken: Seq<Seq<char>>, n: nat)
    requires
        forall|k: int| 1 <= k <= n ==> taken.contains(#[trigger] copy_name(name, k)),
    ensures
        n <= taken.len(),
{
    let s = copy_names(name, n);
    assert(s.no_duplicates()) by {
        assert forall|a: int, b: int|
            0 <= a < s.len() && 0 <= b < s.len() && a != b implies s[a] != s[b] by {
            if s[a] == s[b] {
                copy_names_differ(name, a + 1, b + 1);
            }
        }
    }
    s.unique_seq_to_set();
    taken.lemma_cardinality_of_set();
    assert(s.to_set().subset_of(taken.to_set())) by {
        assert forall|x: Seq<char>| s.to_set().contains(x) implies taken.to_set().contains(x) by {
            let a = choose|a: int| 0 <= a < s.len() && s[a] == x;
            assert(taken.contains(copy_name(name, a + 1)));
        }
    }
    vstd::set_lib::lemma_len_subset(s.to_set(), taken.to_set());
}

/// Whether `i` is the number of the first copy of a file whose name is free.
pub open spec fn first_free_copy(name: Seq<char>, taken: Seq<Seq<char>>, i: int) -> bool {
    &&& 1 <= i
    &&& !taken.contains(copy_name(name, i))
    &&& forall|k: int| 1 <= k < i ==> taken.contains(#[trigger] copy_name(name, k))
}

/// The name of the first copy of a file that is not taken.
pub fn create_copy_path(file_name: &str, taken: &Vec<String>) -> (r: String)
    requires
        taken@.len() < u64::MAX,
    ensures
        exists|i: int|
            #[trigger] first_free_copy(file_name@, texts(taken@), i) && r@ == copy_name(
                file_name@,
                i,
            ),
{
    let ghost all = texts(taken@);
    let (stem_text, ext) = split_name(file_name);
    let mut i: u64 = 1;
    loop
        invariant
            1 <= i <= taken@.len() + 1,
            taken@.len() < u64::MAX,
            all == texts(taken@),
            stem_text@ == stem(file_name@),
            ext@ == extension(file_name@),
            forall|k: int| 1 <= k < i ==> all.contains(#[trigger] copy_name(file_name@, k)),
        decreases taken@.len() + 1 - i,
    {
        let mut candidate = stem_text.clone();
        candidate.append(" (");
        push_u64(&mut candidate, i);
        candidate.append(")");
        candidate.append(ext.as_str());
        assert(candidate@ == copy_name(file_name@, i as int));
        if !contains_text(taken, candidate.as_str()) {
            assert(first_free_copy(file_name@, all, i as int));
            return candidate;
        }
        proof {
            assert forall|k: int| 1 <= k <= i implies all.contains(
                #[trigger] copy_name(file_name@, k),
            ) by {}
            some_copy_is_free(file_name@, all, i as nat);
        }
        i += 1;
    }
}

/// Choose the name under which a file is stored: its own, or that of a copy where one exists
/// and is to be kept beside it. `taken` has the names in the directory.
pub fn resolve_target_path(
    file_name: &str,
    exists: bool,
    conflict_res: FileConflictResolution,
    taken: &Vec<String>,
) -> (r: String)
    requires
        taken@.len() < u64::MAX,
    ensures
        exists && conflict_res == FileConflictResolution::CreateCopy ==> exists|i: int|
            #[trigger] first_free_copy(file_name@, texts(taken@), i) && r@ == copy_name(
                file_name@,
                i,
            ),
        !(exists && conflict_res == FileConflictResolution::CreateCopy) ==> r@ == file_name@,
{
    if exists && conflict_res == FileConflictResolution::CreateCopy {
        create_copy_path(file_name, taken)
    } else {
        file_name.to_owned()
    }
}

/// The first free copy is the only one: names are chosen without a choice.
pub proof fn first_free_copy_is_unique(
    name: Seq<char>,
    taken: Seq<Seq<char>>,
    i: int,
    j: int,
)
    requires
        first_free_copy(name, taken, i),
        first_free_copy(name, taken, j),
    ensures
        i == j,
{
    if i < j {
        assert(taken.contains(copy_name(name, i)));
    } else if j < i {
        assert(taken.contains(copy_name(name, j)));
    }
}

/// How many hexadecimal digits a number has.
pub open spec fn hex_len(n: nat) -> nat
    decreases n,
{
    if n < 16 {
        1
    } else {
        hex_len(n / 16) + 1
    }
}

/// A number in hexadecimal with at least eight digits.
pub open spec fn padded_hex(n: nat) -> Seq<char> {
    hex_text(
        n,
        if hex_len(n) < 8 {
            8
        } else {
            hex_len(n)
        },
    )
}

/// The name under which a file is written before it is complete. A name that is no file name
/// stays as it is.
pub open spec fn temp_name(name: Seq<char>, suffix: u64) -> Seq<char> {
    if name.len() == 0 || is_dots(name) {
        name
    } else {
        name + ".tmp"@ + padded_hex(suffix as nat)
    }
}

proof fn hex_len_bound(n: nat, k: nat)
    requires
        n < hex_limit(k),
        k >= 1,
    ensures
        hex_len(n) <= k,
    decreases k,
{
    if n >= 16 {
        if k == 1 {
            assert(hex_limit(0) == 1);
        } else {
            hex_len_bound(n / 16, (k - 1) as nat);
        }
    }
}

proof fn hex_len_covers(n: nat)
    ensures
        n < hex_limit(hex_len(n)),
    decreases n,
{
    if n < 16 {
        assert(hex_limit(0) == 1);
        assert(hex_limit(1) == 16);
    } else {
        hex_len_covers(n / 16);
    }
}

proof fn hex_limit_grows(a: nat, b: nat)
    requires
        a <= b,
    ensures
        hex_limit(a) <= hex_limit(b),
    decreases b,
{
    if a < b {
        hex_limit_grows(a, (b - 1) as nat);
    }
}

/// A file is never written under its own name before it is complete, and different numbers
/// give different names.
pub proof fn temp_names_are_different(name: Seq<char>, a: u64, b: u64)
    requires
        name.len() > 0,
        !is_dots(name),
    ensures
        temp_name(name, a) != name,
        a != b ==> temp_name(name, a) != temp_name(name, b),
{
    reveal_strlit(".tmp");
    let x = padded_hex(a as nat);
    let y = padded_hex(b as nat);
    let head = name + ".tmp"@;
    assert(temp_name(name, a).len() > name.len());
    if temp_name(name, a) == temp_name(name, b) {
        assert(x =~= temp_name(name, a).skip(head.len() as int));
        assert(y =~= temp_name(name, b).skip(head.len() as int));
        let v = if hex_len(a as nat) < 8 {
            8
        } else {
            hex_len(a as nat)
        };
        let w = if hex_len(b as nat) < 8 {
            8
        } else {
            hex_len(b as nat)
        };
        hex_text_len(a as nat, v);
        hex_text_len(b as nat, w);
        hex_len_covers(a as nat);
        hex_len_covers(b as nat);
        hex_limit_grows(hex_len(a as nat), v);
        hex_limit_grows(hex_len(b as nat), w);
        hex_text_injective(a as nat, b as nat, v);
    }
}

fn hex_digits(n: u64) -> (w: usize)
    ensures
        w == hex_len(n as nat),
        w <= 16,
    decreases n,
{
    proof {
        reveal_with_fuel(hex_limit, 17);
        assert(hex_limit(16) == 0x10000000000000000);
        hex_len_bound(n as nat, 16);
    }
    if n < 16 {
        1
    } else {
        hex_digits(n / 16) + 1
    }
}

/// The name under which a file is written before it is complete, made different from others
/// by a number.
pub fn temp_download_name(name: &str, suffix: u64) -> (r: String)
    ensures
        r@ == temp_name(name@, suffix),
{
    let c = chars_of(name);
    let mut r = name.to_owned();
    if c.len() == 0 || only_dots(&c) {
        return r;
    }
    r.append(".tmp");
    let w: usize = hex_digits(suffix);
    push_hex(
        &mut r,
        suffix as u128,
        if w < 8 {
            8
        } else {
            w
        },
    );
    r
}

/// The last dot of a name is a dot, and behind it there is none; a name has no last dot exactly
/// where it has no dot.
pub proof fn last_dot_is_the_last(name: Seq<char>, i: int)
    ensures
        last_dot(name) is None <==> !name.contains('.'),
        last_dot(name) == Some(i) <==> 0 <= i < name.len() && name[i] == '.' && forall|k: int|
            i < k < name.len() ==> #[trigger] name[k] != '.',
    decreases name.len(),
{
    if name.len() > 0 {
        let front = name.drop_last();
        let n = name.len() - 1;
        last_dot_is_the_last(front, i);
        assert forall|k: int| 0 <= k < n implies #[trigger] front[k] == name[k] by {}
        if name.contains('.') && name[n] != '.' {
            let k = choose|k: int| 0 <= k < name.len() && name[k] == '.';
            assert(front[k] == '.');
        }
        if front.contains('.') {
            let k = choose|k: int| 0 <= k < front.len() && front[k] == '.';
            assert(name[k] == '.');
        }
        if name[n] == '.' {
            assert(name.contains(name[n]));
        } else {
            if last_dot(name) == Some(i) {
                assert forall|k: int| i < k < name.len() implies #[trigger] name[k] != '.' by {
                    if k < n {
                        assert(front[k] != '.');
                    }
                }
            }
            if 0 <= i < name.len() && name[i] == '.' && (forall|k: int|
                i < k < name.len() ==> #[trigger] name[k] != '.') {
                assert forall|k: int| i < k < front.len() implies #[trigger] front[k] != '.' by {
                    assert(name[k] != '.');
                }
            }
        }
    }
}

/// A name is its stem and its extension put together, unless it is that of a directory itself or
/// of its parent, which have neither.
pub proof fn stem_and_extension_make_the_name(name: Seq<char>)
    ensures
        name != seq!['.'] && name != seq!['.', '.'] ==> stem(name) + extension(name) == name,
        name == seq!['.'] || name == seq!['.', '.'] ==> stem(name).len() == 0 && extension(
            name,
        ).len() == 0,
        extension(name).len() > 0 ==> extension(name)[0] == '.' && stem(name).len() > 0,
{
    if !is_dots(name) {
        if let Some(i) = last_dot(name) {
            last_dot_is_the_last(name, i);
        }
        assert(stem(name) + extension(name) =~= name);
    }
}

/// A copy of a file gets its number in brackets before the extension, which is what follows the
/// last dot, where something stands before that dot; a name without such a dot gets it at its
/// end.
pub proof fn copy_is_numbered_before_the_extension(s: Seq<char>, x: Seq<char>, i: int)
    requires
        !x.contains('.'),
    ensures
        s.len() > 0 && !(s == seq!['.'] && x.len() == 0) ==> copy_name(s + seq!['.'] + x, i) == s
            + (" ("@ + nat_text(i as nat) + ")"@) + (seq!['.'] + x),
        copy_name(x, i) == x + (" ("@ + nat_text(i as nat) + ")"@),
        x.len() > 0 ==> copy_name(seq!['.'] + x, i) == seq!['.'] + x + (" ("@ + nat_text(i as nat)
            + ")"@),
{
    let mark = " ("@ + nat_text(i as nat) + ")"@;
    assert forall|k: int| 0 <= k < x.len() implies #[trigger] x[k] != '.' by {
        assert(x.contains(x[k]));
    }
    let name = s + seq!['.'] + x;
    last_dot_is_the_last(name, s.len() as int);
    assert(last_dot(name) == Some(s.len() as int)) by {
        assert(name[s.len() as int] == '.');
        assert forall|k: int| s.len() < k < name.len() implies #[trigger] name[k] != '.' by {
            assert(name[k] == x[k - s.len() - 1]);
        }
    }
    if s.len() > 0 && !(s == seq!['.'] && x.len() == 0) {
        assert(!is_dots(name)) by {
            if name == seq!['.', '.'] {
                assert(name.len() == 2);
                assert(s.len() == 1);
                assert(s[0] == name[0]);
                assert(s =~= seq!['.']);
            }
            if name == seq!['.'] {
                assert(name.len() == 1);
            }
        }
        assert(stem(name) =~= s);
        assert(extension(name) =~= seq!['.'] + x);
        assert(copy_name(name, i) =~= s + mark + (seq!['.'] + x));
    }
    last_dot_is_the_last(x, 0);
    assert(!is_dots(x)) by {
        if x == seq!['.'] || x == seq!['.', '.'] {
            assert(x[0] == '.');
        }
    }
    assert(stem(x) =~= x);
    assert(extension(x) =~= Seq::<char>::empty());
    assert(copy_name(x, i) =~= x + mark);
    if x.len() > 0 {
        let hidden = seq!['.'] + x;
        last_dot_is_the_last(hidden, 0);
        assert(last_dot(hidden) == Some(0int)) by {
            assert forall|k: int| 0 < k < hidden.len() implies #[trigger] hidden[k] != '.' by {
                assert(hidden[k] == x[k - 1]);
            }
        }
        assert(!is_dots(hidden)) by {
            assert(hidden[1] == x[0]);
        }
        assert(stem(hidden) =~= hidden);
        assert(extension(hidden) =~= Seq::<char>::empty());
        assert(copy_name(hidden, i) =~= hidden + mark);
    }
}

/// The first free copy is free, has a number from 1 on, and no copy with a smaller such number
/// is free.
pub proof fn first_free_copy_is_the_smallest(
    name: Seq<char>,
    taken: Seq<Seq<char>>,
    i: int,
    k: int,
)
    ensures
        first_free_copy(name, taken, i) ==> 1 <= i && !taken.contains(copy_name(name, i)),
        first_free_copy(name, taken, i) && 1 <= k && !taken.contains(copy_name(name, k)) ==> i <= k,
        !taken.contains(copy_name(name, 1)) ==> first_free_copy(name, taken, 1),
{
    if first_free_copy(name, taken, i) && 1 <= k < i {
        assert(taken.contains(copy_name(name, k)));
    }
}

/// The name under which a file is written before it is complete begins with its own, goes on
/// with `.tmp`, and ends with the number in at least eight hexadecimal digits.
pub proof fn temp_name_holds_the_number(name: Seq<char>, suffix: u64)
    requires
        name.len() > 0,
        name != seq!['.'],
        name != seq!['.', '.'],
    ensures
        ({
            let t = temp_name(name, suffix);
            let n = name.len() as int + 4;
            &&& t.len() >= n + 8
            &&& t.take(n) == name + ".tmp"@
            &&& hex_value(t.skip(n)) == suffix
            &&& t.len() > n + 8 ==> t[n] != '0'
            &&& forall|i: int|
                n <= i < t.len() ==> '0' <= #[trigger] t[i] <= '9' || 'a' <= t[i] <= 'f'
        }),
{
    reveal_strlit(".tmp");
    let t = temp_name(name, suffix);
    let n = name.len() as int + 4;
    let w = if hex_len(suffix as nat) < 8 {
        8
    } else {
        hex_len(suffix as nat)
    };
    let x = padded_hex(suffix as nat);
    hex_text_len(suffix as nat, w);
    hex_len_covers(suffix as nat);
    hex_limit_grows(hex_len(suffix as nat), w);
    hexadecimal_digits_stand_for_the_number(suffix as nat, w);
    assert(t.take(n) =~= name + ".tmp"@);
    assert(t.skip(n) =~= x);
    assert forall|i: int| n <= i < t.len() implies '0' <= #[trigger] t[i] <= '9' || 'a' <= t[i]
        <= 'f' by {
        assert(t[i] == x[i - n]);
    }
    if hex_len(suffix as nat) > 8 {
        first_hex_digit(suffix as nat);
        assert(t[n] == x[0]);
    }
}

proof fn first_hex_digit(n: nat)
    requires
        n > 0,
    ensures
        hex_text(n, hex_len(n)).len() > 0,
        hex_text(n, hex_len(n))[0] != '0',
    decreases n,
{
    hex_text_len(n, hex_len(n));
    if n < 16 {
        reveal_with_fuel(hex_text, 2);
        assert(hex_text(n / 16, 0).len() == 0);
        assert(hex_text(n, 1)[0] == hex_char((n % 16) as int));
    } else {
        first_hex_digit(n / 16);
        hex_text_len(n / 16, hex_len(n / 16));
    }
}

/// A name that is no file name is left alone.
pub proof fn names_of_directories_are_left_alone(suffix: u64)
    ensures
        temp_name(Seq::empty(), suffix) == Seq::<char>::empty(),
        temp_name(seq!['.'], suffix) == seq!['.'],
        temp_name(seq!['.', '.'], suffix) == seq!['.', '.'],
{
}

} // verus!
