//! Path strings: normalization and containment, decided on the text alone.

use vstd::prelude::*;

use crate::text::{chars_of, join_texts, joined, str_eq, texts};

verus! {

/// How a path string is read.
#[derive(Debug, Clone, Copy, PartialEq, Eq, Structural)]
pub enum PathFormat {
    Posix,
    Windows,
    Uri,
}

/// The separator that a format writes.
pub open spec fn separator(format: PathFormat) -> char {
    match format {
        PathFormat::Windows => '\\',
        PathFormat::Posix | PathFormat::Uri => '/',
    }
}

/// The separator of a format as text.
pub fn separator_str(format: PathFormat) -> (s: &'static str)
    ensures
        s@ == seq![separator(format)],
{
    proof {
        reveal_strlit("\\");
        reveal_strlit("/");
    }
    let s = match format {
        PathFormat::Windows => "\\",
        PathFormat::Posix | PathFormat::Uri => "/",
    };
    assert(s@ =~= seq![separator(format)]);
    s
}

/// Both slashes separate components, whatever the format.
pub open spec fn is_sep(c: char) -> bool {
    c == '/' || c == '\\'
}

/// Whether `c` is an ASCII letter.
pub open spec fn is_letter(c: char) -> bool {
    'a' <= c <= 'z' || 'A' <= c <= 'Z'
}

/// A drive root: a letter, a colon and a separator.
pub open spec fn has_drive(p: Seq<char>) -> bool {
    p.len() >= 3 && is_letter(p[0]) && p[1] == ':' && is_sep(p[2])
}

/// A network path: the same slash twice.
pub open spec fn is_unc(p: Seq<char>) -> bool {
    p.len() >= 2 && is_sep(p[0]) && p[0] == p[1]
}

/// How many characters the root of a path takes.
pub open spec fn root_len(p: Seq<char>) -> int {
    if has_drive(p) {
        3
    } else if is_unc(p) {
        2
    } else if p.len() >= 1 && is_sep(p[0]) {
        1
    } else {
        0
    }
}

/// The root of a path, written with the format's separator.
pub open spec fn root_text(p: Seq<char>, format: PathFormat) -> Seq<char> {
    let sep = separator(format);
    if has_drive(p) {
        seq![p[0], ':', sep]
    } else if is_unc(p) {
        seq![sep, sep]
    } else if p.len() >= 1 && is_sep(p[0]) {
        seq![sep]
    } else {
        Seq::empty()
    }
}

/// How many leading components `..` cannot remove: the server and share of a network path.
pub open spec fn kept_components(p: Seq<char>) -> nat {
    if !has_drive(p) && is_unc(p) {
        2
    } else {
        0
    }
}

/// The text between separators.
pub open spec fn parts(s: Seq<char>) -> Seq<Seq<char>>
    decreases s.len(),
{
    if s.len() == 0 {
        seq![Seq::empty()]
    } else {
        let before = parts(s.drop_last());
        if is_sep(s.last()) {
            before.push(Seq::empty())
        } else {
            before.drop_last().push(before.last().push(s.last()))
        }
    }
}

/// The component `..`.
pub open spec fn is_parent(c: Seq<char>) -> bool {
    c == seq!['.', '.']
}

/// A component that stands for the directory itself.
pub open spec fn is_idle(c: Seq<char>) -> bool {
    c.len() == 0 || c == seq!['.']
}

/// The components left when `.`, `..` and empty parts are worked off in order.
pub open spec fn resolved(p: Seq<Seq<char>>, keep: nat) -> Seq<Seq<char>>
    decreases p.len(),
{
    if p.len() == 0 {
        Seq::empty()
    } else {
        let before = resolved(p.drop_last(), keep);
        if is_parent(p.last()) {
            if before.len() > keep {
                before.drop_last()
            } else {
                before
            }
        } else if is_idle(p.last()) {
            before
        } else {
            before.push(p.last())
        }
    }
}

/// The components of a normalized path.
pub open spec fn path_components(p: Seq<char>) -> Seq<Seq<char>> {
    resolved(parts(p.skip(root_len(p))), kept_components(p))
}

/// A path with its root kept and its components resolved.
pub open spec fn normalized(p: Seq<char>, format: PathFormat) -> Seq<char> {
    root_text(p, format) + joined(path_components(p), seq![separator(format)])
}

/// Put one part of a path behind the components so far.
fn push_component(components: &mut Vec<String>, part: &str, keep: usize)
    ensures
        forall|p: Seq<Seq<char>>|
            #![trigger resolved(p, keep as nat)]
            p.len() > 0 && p.last() == part@ && texts(old(components)@) == resolved(
                p.drop_last(),
                keep as nat,
            ) ==> texts(final(components)@) == resolved(p, keep as nat),
{
    proof {
        reveal_strlit("..");
        reveal_strlit(".");
        assert(".."@ =~= seq!['.', '.']);
        assert("."@ =~= seq!['.']);
    }
    let ghost before = components@;
    if str_eq(part, "..") {
        if components.len() > keep {
            components.pop();
            assert(texts(components@) =~= texts(before).drop_last());
        }
    } else if part.is_empty() || str_eq(part, ".") {
    } else {
        components.push(part.to_owned());
        assert(texts(components@) =~= texts(before).push(part@));
    }
}

/// The components of `rest`, with `.`, `..` and empty parts worked off.
fn resolve_components(rest: &str, keep: usize) -> (components: Vec<String>)
    ensures
        texts(components@) == resolved(parts(rest@), keep as nat),
{
    let c = chars_of(rest);
    let mut components: Vec<String> = Vec::new();
    let mut start: usize = 0;
    let mut i: usize = 0;
    assert(rest@.take(0) =~= Seq::empty());
    assert(parts(rest@.take(0)).drop_last() =~= Seq::empty());
    assert(texts(components@) =~= resolved(Seq::empty(), keep as nat));
    assert(rest@.subrange(0, 0) =~= Seq::empty());
    while i < c.len()
        invariant
            start <= i <= c.len(),
            c@ == rest@,
            parts(rest@.take(i as int)).len() > 0,
            parts(rest@.take(i as int)).last() == rest@.subrange(start as int, i as int),
            texts(components@) == resolved(parts(rest@.take(i as int)).drop_last(), keep as nat),
        decreases c.len() - i,
    {
        let ghost now = rest@.take(i as int);
        let ghost next = rest@.take(i + 1);
        assert(next.drop_last() =~= now);
        assert(next.last() == c@[i as int]);
        if c[i] == '/' || c[i] == '\\' {
            let part = rest.substring_char(start, i);
            push_component(&mut components, part, keep);
            start = i + 1;
            assert(parts(next).drop_last() =~= parts(now));
            assert(rest@.subrange(i + 1, i + 1) =~= Seq::empty());
        } else {
            assert(parts(next).drop_last() =~= parts(now).drop_last());
            assert(rest@.subrange(start as int, i + 1) =~= rest@.subrange(
                start as int,
                i as int,
            ).push(c@[i as int]));
        }
        i += 1;
    }
    assert(rest@.take(c.len() as int) =~= rest@);
    let part = rest.substring_char(start, c.len());
    push_component(&mut components, part, keep);
    components
}

/// Normalize a path string by resolving `.` and `..` components.
///
/// The work is done on the text alone: symbolic links are not followed, so a path that
/// passes through a link can lie elsewhere than its normalized text says.
pub fn normalize_path_str(path: &str, format: PathFormat) -> (out: String)
    ensures
        out@ == normalized(path@, format),
{
    let c = chars_of(path);
    let n: usize = c.len();
    let sep = separator_str(format);
    let drive: bool = n >= 3 && (('a' <= c[0] && c[0] <= 'z') || ('A' <= c[0] && c[0] <= 'Z'))
        && c[1] == ':' && (c[2] == '/' || c[2] == '\\');
    let unc: bool = n >= 2 && (c[0] == '/' || c[0] == '\\') && c[0] == c[1];
    let rooted: bool = n >= 1 && (c[0] == '/' || c[0] == '\\');
    let mut out = String::new();
    let mut skip: usize = 0;
    let mut keep: usize = 0;
    if drive {
        out.append(path.substring_char(0, 2));
        out.append(sep);
        skip = 3;
        assert(out@ =~= root_text(path@, format));
    } else if unc {
        out.append(sep);
        out.append(sep);
        skip = 2;
        keep = 2;
        assert(out@ =~= root_text(path@, format));
    } else if rooted {
        out.append(sep);
        skip = 1;
        assert(out@ =~= root_text(path@, format));
    }
    assert(out@ =~= root_text(path@, format));
    assert(path@.subrange(skip as int, n as int) =~= path@.skip(skip as int));
    let components = resolve_components(path.substring_char(skip, n), keep);
    out.append(join_texts(&components, sep).as_str());
    out
}

/// A path lies in a base that is its own text, or that it goes on from behind a separator.
pub open spec fn is_within(path: Seq<char>, base: Seq<char>, format: PathFormat) -> bool {
    let sep = separator(format);
    ||| path == base
    ||| if base.len() > 0 && base.last() == sep {
        base.is_prefix_of(path)
    } else {
        base.push(sep).is_prefix_of(path)
    }
}

/// Whether `path` begins with `head`.
fn starts_with(path: &Vec<char>, head: &Vec<char>) -> (r: bool)
    ensures
        r == head@.is_prefix_of(path@),
{
    if head.len() > path.len() {
        return false;
    }
    let mut i: usize = 0;
    while i < head.len()
        invariant
            i <= head.len() <= path.len(),
            forall|k: int| 0 <= k < i ==> head@[k] == path@[k],
        decreases head.len() - i,
    {
        if head[i] != path[i] {
            assert(path@.subrange(0, head@.len() as int)[i as int] == path@[i as int]);
            return false;
        }
        i += 1;
    }
    assert(head@ =~= path@.subrange(0, head@.len() as int));
    true
}

/// Whether `path` is `base` itself or a descendant of `base`.
///
/// Both must already be normalized. Only whole components match: `/a/job1` holds
/// `/a/job1/sub` and not its sibling `/a/job10`.
pub fn path_is_within(path: &str, base: &str, format: PathFormat) -> (r: bool)
    ensures
        r == is_within(path@, base@, format),
{
    if str_eq(path, base) {
        return true;
    }
    let sep = match format {
        PathFormat::Windows => '\\',
        PathFormat::Posix | PathFormat::Uri => '/',
    };
    let p = chars_of(path);
    let mut b = chars_of(base);
    if !(b.len() > 0 && b[b.len() - 1] == sep) {
        b.push(sep);
    }
    starts_with(&p, &b)
}

/// A component that normalization leaves alone: a name without separators.
pub open spec fn is_name(c: Seq<char>) -> bool {
    &&& !is_parent(c)
    &&& !is_idle(c)
    &&& forall|i: int| 0 <= i < c.len() ==> !is_sep(#[trigger] c[i])
}

/// Whether every component is a name.
pub open spec fn all_names(c: Seq<Seq<char>>) -> bool {
    forall|i: int| 0 <= i < c.len() ==> is_name(#[trigger] c[i])
}

proof fn parts_have_no_separator(s: Seq<char>)
    ensures
        parts(s).len() > 0,
        forall|i: int, k: int|
            0 <= i < parts(s).len() && 0 <= k < parts(s)[i].len() ==> !is_sep(
                #[trigger] parts(s)[i][k],
            ),
    decreases s.len(),
{
    if s.len() > 0 {
        parts_have_no_separator(s.drop_last());
    }
}

proof fn resolved_are_names(p: Seq<Seq<char>>, keep: nat)
    requires
        forall|i: int, k: int|
            0 <= i < p.len() && 0 <= k < p[i].len() ==> !is_sep(#[trigger] p[i][k]),
    ensures
        all_names(resolved(p, keep)),
    decreases p.len(),
{
    if p.len() > 0 {
        let front = p.drop_last();
        assert forall|i: int, k: int| 0 <= i < front.len() && 0 <= k < front[i].len() implies !is_sep(
            #[trigger] front[i][k],
        ) by {
            assert(!is_sep(p[i][k]));
        }
        resolved_are_names(front, keep);
        assert forall|k: int| 0 <= k < p.last().len() implies !is_sep(#[trigger] p.last()[k]) by {
            assert(!is_sep(p[p.len() - 1][k]));
        }
    }
}

/// A normalized path has no `.`, no `..` and no empty component, and no component holds a
/// separator.
pub proof fn normalized_components_are_names(p: Seq<char>)
    ensures
        all_names(path_components(p)),
{
    parts_have_no_separator(p.skip(root_len(p)));
    resolved_are_names(parts(p.skip(root_len(p))), kept_components(p));
}

proof fn parts_of_name(c: Seq<char>)
    requires
        forall|i: int| 0 <= i < c.len() ==> !is_sep(#[trigger] c[i]),
    ensures
        parts(c) == seq![c],
    decreases c.len(),
{
    if c.len() > 0 {
        let front = c.drop_last();
        assert forall|i: int| 0 <= i < front.len() implies !is_sep(#[trigger] front[i]) by {
            assert(!is_sep(c[i]));
        }
        parts_of_name(front);
        assert(!is_sep(c[c.len() - 1]));
        assert(front.push(c.last()) =~= c);
        assert(parts(c) =~= seq![c]);
    } else {
        assert(c =~= Seq::empty());
    }
}

proof fn parts_around_separator(x: Seq<char>, sep: char, y: Seq<char>)
    requires
        is_sep(sep),
    ensures
        parts(x + seq![sep] + y) == parts(x) + parts(y),
    decreases y.len(),
{
    let whole = x + seq![sep] + y;
    if y.len() == 0 {
        assert(whole.drop_last() =~= x);
        assert(parts(whole) =~= parts(x) + parts(y));
    } else {
        parts_around_separator(x, sep, y.drop_last());
        parts_have_no_separator(y.drop_last());
        assert(whole.drop_last() =~= x + seq![sep] + y.drop_last());
        assert(parts(whole) =~= parts(x) + parts(y));
    }
}

proof fn parts_of_joined(c: Seq<Seq<char>>, sep: char)
    requires
        is_sep(sep),
        all_names(c),
        c.len() > 0,
    ensures
        parts(joined(c, seq![sep])) == c,
    decreases c.len(),
{
    assert(is_name(c.last()));
    parts_of_name(c.last());
    if c.len() == 1 {
        assert(parts(joined(c, seq![sep])) =~= c);
    } else {
        let front = c.drop_last();
        assert forall|i: int| 0 <= i < front.len() implies is_name(#[trigger] front[i]) by {
            assert(is_name(c[i]));
        }
        parts_of_joined(front, sep);
        parts_around_separator(joined(front, seq![sep]), sep, c.last());
        assert(parts(joined(c, seq![sep])) =~= c);
    }
}

proof fn resolved_names(c: Seq<Seq<char>>, keep: nat)
    requires
        all_names(c),
    ensures
        resolved(c, keep) == c,
    decreases c.len(),
{
    if c.len() > 0 {
        let front = c.drop_last();
        assert forall|i: int| 0 <= i < front.len() implies is_name(#[trigger] front[i]) by {
            assert(is_name(c[i]));
        }
        resolved_names(front, keep);
        assert(is_name(c.last()));
        assert(front.push(c.last()) =~= c);
    }
}

proof fn resolved_joined(c: Seq<Seq<char>>, sep: char, keep: nat)
    requires
        is_sep(sep),
        all_names(c),
    ensures
        resolved(parts(joined(c, seq![sep])), keep) == c,
{
    if c.len() > 0 {
        parts_of_joined(c, sep);
        resolved_names(c, keep);
    } else {
        let p = parts(Seq::<char>::empty());
        assert(p.drop_last() =~= Seq::empty());
        assert(resolved(p.drop_last(), keep) =~= Seq::empty());
        assert(resolved(p, keep) =~= c);
    }
}

proof fn joined_behind_first(c: Seq<Seq<char>>, sep: Seq<char>)
    requires
        c.len() > 1,
    ensures
        joined(c, sep) == c[0] + sep + joined(c.drop_first(), sep),
    decreases c.len(),
{
    let rest = c.drop_first();
    if c.len() == 2 {
        assert(joined(c.drop_last(), sep) == c[0]);
        assert(rest.len() == 1 && rest[0] == c.last());
        assert(joined(c, sep) =~= c[0] + sep + rest[0]);
    } else {
        joined_behind_first(c.drop_last(), sep);
        assert(c.drop_last().drop_first() =~= rest.drop_last());
        assert(joined(c, sep) =~= c[0] + sep + joined(rest, sep));
    }
}

proof fn joined_begins_with_first(c: Seq<Seq<char>>, sep: Seq<char>)
    requires
        c.len() > 0,
    ensures
        joined(c, sep).len() >= c[0].len(),
        joined(c, sep).take(c[0].len() as int) == c[0],
{
    if c.len() == 1 {
        assert(c[0].take(c[0].len() as int) =~= c[0]);
    } else {
        joined_behind_first(c, sep);
        assert(joined(c, sep).take(c[0].len() as int) =~= c[0]);
    }
}

/// Normalizing a normalized path changes nothing.
pub proof fn normalize_is_idempotent(p: Seq<char>, format: PathFormat)
    ensures
        normalized(normalized(p, format), format) == normalized(p, format),
{
    let sep = separator(format);
    let c = path_components(p);
    let root = root_text(p, format);
    let body = joined(c, seq![sep]);
    let r = normalized(p, format);
    normalized_components_are_names(p);
    if c.len() > 0 {
        joined_begins_with_first(c, seq![sep]);
        assert(is_name(c[0]));
        assert(body[0] == c[0][0]) by {
            assert(body.take(c[0].len() as int)[0] == body[0]);
        }
        assert(!is_sep(c[0][0]));
    }
    if root.len() > 0 {
        if root.len() == 3 {
            assert(r[0] == p[0] && r[1] == ':' && r[2] == sep);
            assert(has_drive(r));
            assert(r.skip(3) =~= body);
        } else if root.len() == 2 {
            assert(r[0] == sep && r[1] == sep);
            assert(!has_drive(r) && is_unc(r));
            assert(r.skip(2) =~= body);
        } else {
            assert(r[0] == sep);
            assert(!has_drive(r) && !is_unc(r));
            assert(r.skip(1) =~= body);
        }
        resolved_joined(c, sep, kept_components(r));
        assert(root_text(r, format) =~= root);
    } else {
        assert(r =~= body);
        if has_drive(r) {
            // The first component is a letter and a colon, and more components follow.
            assert(c.len() > 0);
            if c.len() == 1 {
                assert(!is_sep(c[0][2]));
            } else {
                joined_behind_first(c, seq![sep]);
                let rest = c.drop_first();
                assert(c[0].len() == 2) by {
                    if c[0].len() > 2 {
                        assert(body[2] == c[0][2]);
                        assert(!is_sep(c[0][2]));
                    }
                    if c[0].len() == 1 {
                        assert(body[1] == sep);
                    }
                }
                assert(body =~= c[0] + seq![sep] + joined(rest, seq![sep]));
                assert(c[0] =~= seq![body[0], body[1]]);
                assert(r.skip(3) =~= joined(rest, seq![sep]));
                assert forall|i: int| 0 <= i < rest.len() implies is_name(#[trigger] rest[i]) by {
                    assert(is_name(c[i + 1]));
                }
                resolved_joined(rest, sep, 0);
                assert(normalized(r, format) =~= r);
            }
        } else {
            assert(!is_unc(r));
            assert(root_len(r) == 0);
            assert(r.skip(0) =~= r);
            resolved_joined(c, sep, 0);
            assert(normalized(r, format) =~= r);
        }
    }
}

/// Every path lies in itself.
pub proof fn within_is_reflexive(p: Seq<char>, format: PathFormat)
    ensures
        is_within(p, p, format),
{
}

/// What lies in a directory lies in every directory that holds it.
pub proof fn within_is_transitive(a: Seq<char>, b: Seq<char>, c: Seq<char>, format: PathFormat)
    requires
        is_within(a, b, format),
        is_within(b, c, format),
    ensures
        is_within(a, c, format),
{
    let sep = separator(format);
    let cs = if c.len() > 0 && c.last() == sep {
        c
    } else {
        c.push(sep)
    };
    if a != b && b != c {
        assert(cs.is_prefix_of(b));
        assert(b.is_prefix_of(a)) by {
            let bs = if b.len() > 0 && b.last() == sep {
                b
            } else {
                b.push(sep)
            };
            assert(bs.is_prefix_of(a));
            assert(b =~= bs.subrange(0, b.len() as int));
            assert(b =~= a.subrange(0, b.len() as int));
        }
        assert(cs =~= a.subrange(0, cs.len() as int)) by {
            assert forall|i: int| 0 <= i < cs.len() implies cs[i] == #[trigger] a[i] by {
                assert(b.subrange(0, cs.len() as int)[i] == cs[i]);
                assert(a.subrange(0, b.len() as int)[i] == b[i]);
            }
        }
    }
}

/// A sibling whose name only extends the name of the base does not lie in it.
pub proof fn extended_name_is_not_within(base: Seq<char>, more: Seq<char>, format: PathFormat)
    requires
        base.len() > 0,
        base.last() != separator(format),
        more.len() > 0,
        more[0] != separator(format),
    ensures
        !is_within(base + more, base, format),
{
    let sep = separator(format);
    assert((base + more).len() != base.len());
    if base.push(sep).is_prefix_of(base + more) {
        assert((base + more).subrange(0, base.len() as int + 1)[base.len() as int] == more[0]);
    }
}

/// Under one root, a normalized path lies in another exactly where the components of the
/// second begin those of the first.
pub proof fn within_is_component_prefix(
    root: Seq<char>,
    path: Seq<Seq<char>>,
    base: Seq<Seq<char>>,
    format: PathFormat,
)
    requires
        root.len() > 0,
        root.last() == separator(format),
        all_names(path),
        all_names(base),
    ensures
        is_within(
            root + joined(path, seq![separator(format)]),
            root + joined(base, seq![separator(format)]),
            format,
        ) <==> base.is_prefix_of(path),
{
    let sep = separator(format);
    let pj = joined(path, seq![sep]);
    let bj = joined(base, seq![sep]);
    let p = root + pj;
    let b = root + bj;
    if base.len() == 0 {
        assert(b =~= root);
        assert(b =~= p.subrange(0, b.len() as int));
        assert(base =~= path.subrange(0, 0));
    } else {
        parts_of_joined(base, sep);
        let last = base.last();
        assert(is_name(last));
        assert(b.last() == last.last() && !is_sep(last.last())) by {
            assert(!is_sep(last[last.len() - 1]));
            assert(bj.last() == last.last());
        }
        if is_within(p, b, format) {
            if p == b {
                assert(pj =~= p.skip(root.len() as int));
                assert(bj =~= b.skip(root.len() as int));
                assert(pj == bj);
                if path.len() == 0 {
                    assert(bj.len() == 0);
                } else {
                    parts_of_joined(path, sep);
                }
                assert(base =~= path.subrange(0, base.len() as int));
            } else {
                let rest = p.skip(b.len() as int + 1);
                assert(p =~= b + seq![sep] + rest) by {
                    assert(p.subrange(0, b.len() as int + 1) == b.push(sep));
                    assert(p =~= p.subrange(0, b.len() as int + 1) + rest);
                }
                assert(pj =~= bj + seq![sep] + rest) by {
                    assert(pj =~= p.skip(root.len() as int));
                }
                assert(path.len() > 0);
                parts_of_joined(path, sep);
                parts_around_separator(bj, sep, rest);
                assert(base =~= path.subrange(0, base.len() as int));
            }
        }
        if base.is_prefix_of(path) {
            joined_prefix(path, base.len() as int, sep);
            assert(base =~= path.take(base.len() as int));
            if path.len() == base.len() {
                assert(path =~= base);
            } else {
                assert(b.push(sep) =~= p.subrange(0, b.len() as int + 1)) by {
                    assert(pj.take(bj.len() as int + 1) =~= bj.push(sep));
                    assert(p.subrange(0, b.len() as int + 1) =~= root + pj.take(bj.len() as int + 1));
                }
            }
        }
    }
}

proof fn joined_prefix(c: Seq<Seq<char>>, n: int, sep: char)
    requires
        0 < n <= c.len(),
    ensures
        n < c.len() ==> ({
            let head = joined(c.take(n), seq![sep]);
            &&& joined(c, seq![sep]).len() > head.len()
            &&& joined(c, seq![sep]).take(head.len() as int + 1) == head.push(sep)
        }),
    decreases c.len(),
{
    if n < c.len() {
        let head = joined(c.take(n), seq![sep]);
        let front = c.drop_last();
        let whole = joined(c, seq![sep]);
        if n == front.len() {
            assert(c.take(n) =~= front);
            assert(whole.take(head.len() as int + 1) =~= head.push(sep));
        } else {
            joined_prefix(front, n, sep);
            assert(front.take(n) =~= c.take(n));
            assert(whole.take(head.len() as int + 1) =~= joined(front, seq![sep]).take(head.len() as int + 1));
        }
    }
}

/// Whether more text behind a separator leaves the root of a path as it is: the path is no bare
/// slash and no bare drive.
pub open spec fn root_is_complete(p: Seq<char>) -> bool {
    p.len() >= 3 || (p.len() == 2 && p[1] != ':') || (p.len() == 1 && p[0] != '/' && p[0] != '\\')
}

proof fn component_is_worked_off(p: Seq<char>, sep: char, t: Seq<char>)
    requires
        root_is_complete(p),
        sep == '/' || sep == '\\',
        forall|i: int| 0 <= i < t.len() ==> #[trigger] t[i] != '/' && t[i] != '\\',
    ensures
        path_components(p + seq![sep] + t) == resolved(
            parts(p.skip(root_len(p))).push(t),
            kept_components(p),
        ),
        kept_components(p + seq![sep] + t) == kept_components(p),
        forall|f: PathFormat| #[trigger] root_text(p + seq![sep] + t, f) == root_text(p, f),
{
    let q = p + seq![sep] + t;
    let rest = p.skip(root_len(p));
    if p.len() == 1 {
        assert(q[0] == p[0] && q[1] == sep);
    } else {
        assert(q[0] == p[0] && q[1] == p[1]);
        if p.len() >= 3 {
            assert(q[2] == p[2]);
        }
    }
    assert(root_len(q) == root_len(p));
    assert(q.skip(root_len(q)) =~= rest + seq![sep] + t);
    assert forall|i: int| 0 <= i < t.len() implies !is_sep(#[trigger] t[i]) by {}
    parts_of_name(t);
    parts_around_separator(rest, sep, t);
    assert(parts(rest) + seq![t] =~= parts(rest).push(t));
}

proof fn normalized_end(p: Seq<char>, format: PathFormat)
    ensures
        ({
            let n = normalized(p, format);
            path_components(p).len() == 0 <==> n.len() == 0 || n.last() == separator(format)
        }),
{
    let c = path_components(p);
    let sep = separator(format);
    let n = normalized(p, format);
    normalized_components_are_names(p);
    if c.len() > 0 {
        assert(is_name(c.last()));
        let j = joined(c, seq![sep]);
        assert(j.len() >= c.last().len() && j.skip(j.len() - c.last().len()) =~= c.last());
        assert(n.last() == j.last());
        assert(j.last() == c.last().last());
        assert(!is_sep(c.last()[c.last().len() - 1]));
    }
}

/// A name behind a path goes behind its normalized text, with one separator of the format
/// between them where there is none. A dot or nothing changes nothing.
pub proof fn names_go_behind_a_normalized_path(
    p: Seq<char>,
    sep: char,
    t: Seq<char>,
    format: PathFormat,
)
    requires
        root_is_complete(p),
        sep == '/' || sep == '\\',
        forall|i: int| 0 <= i < t.len() ==> #[trigger] t[i] != '/' && t[i] != '\\',
        t != seq!['.', '.'],
    ensures
        ({
            let n = normalized(p, format);
            let own = if format == PathFormat::Windows {
                '\\'
            } else {
                '/'
            };
            normalized(p + seq![sep] + t, format) == if t.len() == 0 || t == seq!['.'] {
                n
            } else if n.len() == 0 || n.last() == own {
                n + t
            } else {
                n + seq![own] + t
            }
        }),
{
    let q = p + seq![sep] + t;
    let c = path_components(p);
    let own = separator(format);
    let all = parts(p.skip(root_len(p))).push(t);
    component_is_worked_off(p, sep, t);
    normalized_end(p, format);
    assert(all.drop_last() =~= parts(p.skip(root_len(p))));
    assert(all.last() == t);
    if t.len() == 0 || t == seq!['.'] {
        assert(path_components(q) == c);
    } else {
        assert(path_components(q) == c.push(t));
        assert(c.push(t).drop_last() =~= c);
        if c.len() == 0 {
            assert(joined(c, seq![own]) =~= Seq::empty());
            assert(normalized(q, format) =~= normalized(p, format) + t);
        } else {
            assert(normalized(q, format) =~= normalized(p, format) + seq![own] + t);
        }
    }
}

/// Two dots behind a name take the name away again, and at the root they change nothing. Of a
/// network path they leave the server and the share.
pub proof fn two_dots_take_a_name_away(
    p: Seq<char>,
    sep: char,
    t: Seq<char>,
    format: PathFormat,
)
    requires
        root_is_complete(p),
        sep == '/' || sep == '\\',
        t.len() > 0,
        t != seq!['.'],
        t != seq!['.', '.'],
        forall|i: int| 0 <= i < t.len() ==> #[trigger] t[i] != '/' && t[i] != '\\',
    ensures
        ({
            let n = normalized(p, format);
            let own = if format == PathFormat::Windows {
                '\\'
            } else {
                '/'
            };
            let network = p.len() >= 2 && p[0] == p[1] && (p[0] == '/' || p[0] == '\\');
            &&& !network || path_components(p).len() >= 2 ==> normalized(
                p + seq![sep] + t + seq![sep] + seq!['.', '.'],
                format,
            ) == n
            &&& n.len() == 0 || n.last() == own || (network && path_components(p).len() <= 2)
                ==> normalized(p + seq![sep] + seq!['.', '.'], format) == n
        }),
{
    let dots = seq!['.', '.'];
    let q = p + seq![sep] + t;
    let c = path_components(p);
    let rest = parts(p.skip(root_len(p)));
    component_is_worked_off(p, sep, t);
    component_is_worked_off(p, sep, dots);
    component_is_worked_off(q, sep, dots);
    normalized_end(p, format);
    assert(rest.push(t).drop_last() =~= rest);
    assert(rest.push(dots).drop_last() =~= rest);
    assert(path_components(q) == c.push(t));
    let own_parts = parts(q.skip(root_len(q)));
    assert(own_parts.push(dots).drop_last() =~= own_parts);
    assert(c.push(t).drop_last() =~= c);
}

/// A name alone is its own normalized text, whatever its root, which is kept: a slash, two, or
/// a drive. Dots alone leave the root.
pub proof fn single_names_keep_their_root(
    t: Seq<char>,
    sep: char,
    drive: char,
    format: PathFormat,
)
    requires
        sep == '/' || sep == '\\',
        'a' <= drive <= 'z' || 'A' <= drive <= 'Z',
        forall|i: int| 0 <= i < t.len() ==> #[trigger] t[i] != '/' && t[i] != '\\',
    ensures
        ({
            let own = if format == PathFormat::Windows {
                '\\'
            } else {
                '/'
            };
            let left = if t == seq!['.'] || t == seq!['.', '.'] {
                Seq::empty()
            } else {
                t
            };
            &&& normalized(t, format) == left
            &&& normalized(seq![sep] + t, format) == seq![own] + left
            &&& normalized(seq![sep, sep] + t, format) == seq![own, own] + left
            &&& normalized(seq![drive, ':', sep] + t, format) == seq![drive, ':', own] + left
        }),
{
    assert forall|i: int| 0 <= i < t.len() implies !is_sep(#[trigger] t[i]) by {}
    parts_of_name(t);
    let one = seq![t];
    assert(one.drop_last() =~= Seq::empty());
    let own = separator(format);
    let left = if t == seq!['.'] || t == seq!['.', '.'] {
        Seq::<char>::empty()
    } else {
        t
    };
    assert forall|keep: nat| joined(#[trigger] resolved(one, keep), seq![own]) == left by {
        assert(resolved(one.drop_last(), keep) =~= Seq::empty());
        if left.len() > 0 {
            assert(resolved(one, keep) =~= seq![t]);
        } else {
            assert(resolved(one, keep) =~= Seq::empty());
            assert(t.len() == 0 ==> left =~= Seq::empty());
        }
    }
    assert(t.len() > 0 ==> !is_sep(t[0]));
    assert(!has_drive(t)) by {
        if t.len() >= 3 {
            assert(!is_sep(t[2]));
        }
    }
    assert(t.skip(0) =~= t);
    assert(resolved(one, 0) == path_components(t));
    assert(normalized(t, format) =~= left);
    let a = seq![sep] + t;
    assert(a[0] == sep);
    assert(t.len() > 0 ==> a[1] == t[0]);
    assert(root_len(a) == 1);
    assert(a.skip(1) =~= t);
    assert(normalized(a, format) =~= seq![own] + left);
    let b = seq![sep, sep] + t;
    assert(b[0] == sep && b[1] == sep);
    assert(root_len(b) == 2);
    assert(b.skip(2) =~= t);
    assert(resolved(one, 2) == path_components(b));
    assert(normalized(b, format) =~= seq![own, own] + left);
    let d = seq![drive, ':', sep] + t;
    assert(d[0] == drive && d[1] == ':' && d[2] == sep);
    assert(root_len(d) == 3);
    assert(d.skip(3) =~= t);
    assert(normalized(d, format) =~= seq![drive, ':', own] + left);
}

/// A path lies in a base exactly where it is the base or goes on from it behind a separator of
/// the format.
pub proof fn within_means_going_on_from_the_base(
    base: Seq<char>,
    rest: Seq<char>,
    path: Seq<char>,
    format: PathFormat,
)
    ensures
        ({
            let own = if format == PathFormat::Windows {
                '\\'
            } else {
                '/'
            };
            let start = if base.len() > 0 && base.last() == own {
                base
            } else {
                base + seq![own]
            };
            &&& is_within(base, base, format)
            &&& is_within(start + rest, base, format)
            &&& is_within(path, base, format) && path != base ==> path.len() >= start.len()
                && path.take(start.len() as int) == start
        }),
{
    let own = separator(format);
    let start = if base.len() > 0 && base.last() == own {
        base
    } else {
        base + seq![own]
    };
    assert(base.push(own) =~= base + seq![own]);
    assert((start + rest).subrange(0, start.len() as int) =~= start);
    if is_within(path, base, format) && path != base {
        assert(path.take(start.len() as int) =~= path.subrange(0, start.len() as int));
    }
}

} // verus!
