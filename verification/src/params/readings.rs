//! What texts and numbers are read as: the answers of the expression language and of the
//! machine's floating point, as plain values.
//!
//! A text or number without an entry counts as one that cannot be read.

use vstd::prelude::*;

use crate::params::floats::{Float64, FloatNumber, FloatView, NumberView};
use crate::text::str_eq;

verus! {

/// Values under texts. Of several entries with one key the first counts.
pub struct TextTable<V> {
    pub entries: Vec<(String, V)>,
}

/// The value under a text, if there is one.
pub open spec fn text_entry<V>(s: Seq<(String, V)>, key: Seq<char>) -> Option<V>
    decreases s.len(),
{
    if s.len() == 0 {
        None
    } else if s[0].0@ == key {
        Some(s[0].1)
    } else {
        text_entry(s.drop_first(), key)
    }
}

impl<V> TextTable<V> {
    /// A table without entries.
    pub fn new() -> (r: TextTable<V>)
        ensures
            r.entries@.len() == 0,
    {
        TextTable { entries: Vec::new() }
    }

    /// Add a value under a text.
    pub fn put(&mut self, key: String, value: V)
        ensures
            final(self).entries@ == old(self).entries@.push((key, value)),
    {
        self.entries.push((key, value));
    }

    /// The value under a text, if there is one.
    pub fn find(&self, key: &str) -> (r: Option<&V>)
        ensures
            match text_entry(self.entries@, key@) {
                Some(v) => r == Some(&v),
                None => r is None,
            },
    {
        let mut i: usize = 0;
        assert(self.entries@.skip(0) =~= self.entries@);
        while i < self.entries.len()
            invariant
                i <= self.entries.len(),
                text_entry(self.entries@, key@) == text_entry(
                    self.entries@.skip(i as int),
                    key@,
                ),
            decreases self.entries.len() - i,
        {
            if str_eq(self.entries[i].0.as_str(), key) {
                return Some(&self.entries[i].1);
            }
            assert(self.entries@.skip(i as int).drop_first() =~= self.entries@.skip(i + 1));
            i += 1;
        }
        None
    }
}

/// The value under an integer, if there is one. Of several entries with one key the first
/// counts.
pub open spec fn int_entry<V>(s: Seq<(i64, V)>, key: i64) -> Option<V>
    decreases s.len(),
{
    if s.len() == 0 {
        None
    } else if s[0].0 == key {
        Some(s[0].1)
    } else {
        int_entry(s.drop_first(), key)
    }
}

/// The value under a bit pattern, if there is one. Of several entries with one key the first
/// counts.
pub open spec fn bits_entry<V>(s: Seq<(u64, V)>, key: u64) -> Option<V>
    decreases s.len(),
{
    if s.len() == 0 {
        None
    } else if s[0].0 == key {
        Some(s[0].1)
    } else {
        bits_entry(s.drop_first(), key)
    }
}

/// What a text is read as where a range expression is wanted.
#[derive(Debug)]
pub enum RangeReading {
    /// A range expression.
    Range,
    /// No range expression, for the reason given.
    Refused(String),
}

/// What a text is as a path.
#[derive(Debug)]
pub struct PathReading {
    /// Whether it has the form `scheme://...`.
    pub is_uri: bool,
    /// Whether it is absolute; a URI is.
    pub is_absolute: bool,
    /// It joined to the current working directory, not taken for a URI.
    pub in_working_dir: String,
    /// It joined to the directory of the job template.
    pub in_template_dir: String,
}

/// What a contract reads of a path reading.
pub struct PathView {
    pub is_uri: bool,
    pub is_absolute: bool,
    pub in_working_dir: Seq<char>,
    pub in_template_dir: Seq<char>,
}

/// All answers that parameter values are read by.
pub struct Readings {
    /// Integers as floats.
    pub integers: Vec<(i64, Float64)>,
    /// Texts that are float literals, as numbers.
    pub literals: TextTable<FloatNumber>,
    /// The texts of floats that were not written as literals.
    pub float_texts: Vec<(u64, String)>,
    /// Texts as range expressions.
    pub ranges: TextTable<RangeReading>,
    /// Texts as paths.
    pub paths: TextTable<PathReading>,
}

impl Readings {
    /// An integer as a float.
    pub open spec fn integer(self, i: i64) -> Option<FloatView> {
        match int_entry(self.integers@, i) {
            Some(f) => Some(f@),
            None => None,
        }
    }

    /// A text as a float literal.
    pub open spec fn literal(self, s: Seq<char>) -> Option<NumberView> {
        match text_entry(self.literals.entries@, s) {
            Some(n) => Some(n@),
            None => None,
        }
    }

    /// The text of a float; what it prints as where no other is given.
    pub open spec fn float_text(self, n: NumberView) -> Seq<char> {
        match bits_entry(self.float_texts@, n.bits) {
            Some(t) => t@,
            None => n.shown,
        }
    }

    /// Why a text is no range expression; none where it is one.
    pub open spec fn range_refusal(self, s: Seq<char>) -> Option<Seq<char>> {
        match text_entry(self.ranges.entries@, s) {
            Some(RangeReading::Range) => None,
            Some(RangeReading::Refused(reason)) => Some(reason@),
            None => Some(Seq::empty()),
        }
    }

    /// A text as a path. Without an entry it is relative and joined to nothing.
    pub open spec fn path(self, s: Seq<char>) -> PathView {
        match text_entry(self.paths.entries@, s) {
            Some(p) => PathView {
                is_uri: p.is_uri,
                is_absolute: p.is_absolute,
                in_working_dir: p.in_working_dir@,
                in_template_dir: p.in_template_dir@,
            },
            None => PathView {
                is_uri: false,
                is_absolute: false,
                in_working_dir: s,
                in_template_dir: s,
            },
        }
    }

    /// Readings without an entry.
    pub fn new() -> (r: Readings)
        ensures
            r.integers@.len() == 0,
            r.literals.entries@.len() == 0,
            r.float_texts@.len() == 0,
            r.ranges.entries@.len() == 0,
            r.paths.entries@.len() == 0,
    {
        Readings {
            integers: Vec::new(),
            literals: TextTable::new(),
            float_texts: Vec::new(),
            ranges: TextTable::new(),
            paths: TextTable::new(),
        }
    }

    /// An integer as a float.
    pub fn read_integer(&self, i: i64) -> (r: Option<Float64>)
        ensures
            match self.integer(i) {
                Some(f) => r matches Some(v) && v@ == f,
                None => r is None,
            },
    {
        let mut k: usize = 0;
        assert(self.integers@.skip(0) =~= self.integers@);
        while k < self.integers.len()
            invariant
                k <= self.integers.len(),
                int_entry(self.integers@, i) == int_entry(self.integers@.skip(k as int), i),
            decreases self.integers.len() - k,
        {
            if self.integers[k].0 == i {
                return Some(self.integers[k].1.copy());
            }
            assert(self.integers@.skip(k as int).drop_first() =~= self.integers@.skip(k + 1));
            k += 1;
        }
        None
    }

    /// A text as a float literal.
    pub fn read_literal(&self, s: &str) -> (r: Option<FloatNumber>)
        ensures
            match self.literal(s@) {
                Some(n) => r matches Some(v) && v@ == n,
                None => r is None,
            },
    {
        match self.literals.find(s) {
            Some(n) => Some(n.copy()),
            None => None,
        }
    }

    /// The text of a float.
    pub fn text_of_float(&self, n: &FloatNumber) -> (t: String)
        ensures
            t@ == self.float_text(n@),
    {
        let mut k: usize = 0;
        assert(self.float_texts@.skip(0) =~= self.float_texts@);
        while k < self.float_texts.len()
            invariant
                k <= self.float_texts.len(),
                bits_entry(self.float_texts@, n.bits) == bits_entry(
                    self.float_texts@.skip(k as int),
                    n.bits,
                ),
            decreases self.float_texts.len() - k,
        {
            if self.float_texts[k].0 == n.bits {
                return self.float_texts[k].1.clone();
            }
            assert(self.float_texts@.skip(k as int).drop_first() =~= self.float_texts@.skip(
                k + 1,
            ));
            k += 1;
        }
        n.shown.clone()
    }

    /// Why a text is no range expression; none where it is one.
    pub fn refuse_range(&self, s: &str) -> (r: Option<String>)
        ensures
            match self.range_refusal(s@) {
                Some(reason) => r matches Some(t) && t@ == reason,
                None => r is None,
            },
    {
        match self.ranges.find(s) {
            Some(RangeReading::Range) => None,
            Some(RangeReading::Refused(reason)) => Some(reason.clone()),
            None => Some(String::new()),
        }
    }

    /// Whether a text has the form of a URI.
    pub fn is_uri(&self, s: &str) -> (r: bool)
        ensures
            r == self.path(s@).is_uri,
    {
        match self.paths.find(s) {
            Some(p) => p.is_uri,
            None => false,
        }
    }

    /// Whether a path is absolute; a URI is.
    pub fn is_absolute_for_format(&self, s: &str) -> (r: bool)
        ensures
            r == self.path(s@).is_absolute,
    {
        match self.paths.find(s) {
            Some(p) => p.is_absolute,
            None => false,
        }
    }

    /// Whether a path is absolute and no URI.
    pub fn is_absolute_for_format_no_uri(&self, s: &str) -> (r: bool)
        ensures
            r == (!self.path(s@).is_uri && self.path(s@).is_absolute),
    {
        if self.is_uri(s) {
            return false;
        }
        self.is_absolute_for_format(s)
    }

    /// A path joined to the current working directory.
    pub fn join_to_working_dir(&self, s: &str) -> (r: String)
        ensures
            r@ == self.path(s@).in_working_dir,
    {
        match self.paths.find(s) {
            Some(p) => p.in_working_dir.clone(),
            None => s.to_owned(),
        }
    }

    /// A path joined to the directory of the job template.
    pub fn join_for_format(&self, s: &str) -> (r: String)
        ensures
            r@ == self.path(s@).in_template_dir,
    {
        match self.paths.find(s) {
            Some(p) => p.in_template_dir.clone(),
            None => s.to_owned(),
        }
    }
}

/// What a table has under a text is the value of the first entry with that text; it has nothing
/// exactly where there is no such entry.
pub proof fn first_text_entry_counts<V>(s: Seq<(String, V)>, key: Seq<char>, i: int)
    ensures
        text_entry(s, key) is None <==> forall|k: int|
            0 <= k < s.len() ==> (#[trigger] s[k]).0@ != key,
        0 <= i < s.len() && s[i].0@ == key && (forall|k: int|
            0 <= k < i ==> (#[trigger] s[k]).0@ != key) ==> text_entry(s, key) == Some(s[i].1),
    decreases s.len(),
{
    if s.len() > 0 {
        let rest = s.drop_first();
        first_text_entry_counts(rest, key, i - 1);
        assert forall|k: int| 0 <= k < rest.len() implies #[trigger] rest[k] == s[k + 1] by {}
        if text_entry(s, key) is None {
            assert forall|k: int| 0 <= k < s.len() implies (#[trigger] s[k]).0@ != key by {
                if k > 0 {
                    assert(rest[k - 1].0@ != key);
                }
            }
        }
        if forall|k: int| 0 <= k < s.len() ==> (#[trigger] s[k]).0@ != key {
            assert(s[0].0@ != key);
            assert forall|k: int| 0 <= k < rest.len() implies (#[trigger] rest[k]).0@ != key by {
                assert(s[k + 1].0@ != key);
            }
        }
        if 0 < i < s.len() && s[i].0@ == key && (forall|k: int|
            0 <= k < i ==> (#[trigger] s[k]).0@ != key) {
            assert(s[0].0@ != key);
            assert(rest[i - 1] == s[i]);
            assert forall|k: int| 0 <= k < i - 1 implies (#[trigger] rest[k]).0@ != key by {
                assert(s[k + 1].0@ != key);
            }
        }
    }
}

/// What is read under an integer is the value of the first entry with it; there is nothing
/// exactly where there is no such entry.
pub proof fn first_integer_entry_counts<V>(s: Seq<(i64, V)>, key: i64, i: int)
    ensures
        int_entry(s, key) is None <==> forall|k: int|
            0 <= k < s.len() ==> (#[trigger] s[k]).0 != key,
        0 <= i < s.len() && s[i].0 == key && (forall|k: int|
            0 <= k < i ==> (#[trigger] s[k]).0 != key) ==> int_entry(s, key) == Some(s[i].1),
    decreases s.len(),
{
    if s.len() > 0 {
        let rest = s.drop_first();
        first_integer_entry_counts(rest, key, i - 1);
        assert forall|k: int| 0 <= k < rest.len() implies #[trigger] rest[k] == s[k + 1] by {}
        if int_entry(s, key) is None {
            assert forall|k: int| 0 <= k < s.len() implies (#[trigger] s[k]).0 != key by {
                if k > 0 {
                    assert(rest[k - 1].0 != key);
                }
            }
        }
        if forall|k: int| 0 <= k < s.len() ==> (#[trigger] s[k]).0 != key {
            assert(s[0].0 != key);
            assert forall|k: int| 0 <= k < rest.len() implies (#[trigger] rest[k]).0 != key by {
                assert(s[k + 1].0 != key);
            }
        }
        if 0 < i < s.len() && s[i].0 == key && (forall|k: int|
            0 <= k < i ==> (#[trigger] s[k]).0 != key) {
            assert(s[0].0 != key);
            assert(rest[i - 1] == s[i]);
            assert forall|k: int| 0 <= k < i - 1 implies (#[trigger] rest[k]).0 != key by {
                assert(s[k + 1].0 != key);
            }
        }
    }
}

/// What is read of a text, an integer or a path is what its entry says, field by field, and
/// without an entry a text is no literal, no range and a relative path.
pub proof fn readings_are_what_the_entries_say(r: Readings, s: Seq<char>, i: i64)
    ensures
        r.literal(s) is Some <==> text_entry(r.literals.entries@, s) is Some,
        text_entry(r.literals.entries@, s) matches Some(n) ==> r.literal(s) == Some(n@),
        r.integer(i) is Some <==> int_entry(r.integers@, i) is Some,
        int_entry(r.integers@, i) matches Some(f) ==> r.integer(i) == Some(f@),
        r.range_refusal(s) is None <==> text_entry(r.ranges.entries@, s) == Some(
            RangeReading::Range,
        ),
        text_entry(r.ranges.entries@, s) matches Some(RangeReading::Refused(m))
            ==> r.range_refusal(s) == Some(m@),
        text_entry(r.paths.entries@, s) matches Some(p) ==> r.path(s).is_uri == p.is_uri && r.path(
            s,
        ).is_absolute == p.is_absolute && r.path(s).in_working_dir == p.in_working_dir@ && r.path(
            s,
        ).in_template_dir == p.in_template_dir@,
        text_entry(r.paths.entries@, s) is None ==> !r.path(s).is_uri && !r.path(s).is_absolute,
{
}

/// What is read under a bit pattern is the value of the first entry with it; there is nothing
/// exactly where there is no such entry.
pub proof fn first_bits_entry_counts<V>(s: Seq<(u64, V)>, key: u64, i: int)
    ensures
        bits_entry(s, key) is None <==> forall|k: int|
            0 <= k < s.len() ==> (#[trigger] s[k]).0 != key,
        0 <= i < s.len() && s[i].0 == key && (forall|k: int|
            0 <= k < i ==> (#[trigger] s[k]).0 != key) ==> bits_entry(s, key) == Some(s[i].1),
    decreases s.len(),
{
    if s.len() > 0 {
        let rest = s.drop_first();
        first_bits_entry_counts(rest, key, i - 1);
        assert forall|k: int| 0 <= k < rest.len() implies #[trigger] rest[k] == s[k + 1] by {}
        if bits_entry(s, key) is None {
            assert forall|k: int| 0 <= k < s.len() implies (#[trigger] s[k]).0 != key by {
                if k > 0 {
                    assert(rest[k - 1].0 != key);
                }
            }
        }
        if forall|k: int| 0 <= k < s.len() ==> (#[trigger] s[k]).0 != key {
            assert(s[0].0 != key);
            assert forall|k: int| 0 <= k < rest.len() implies (#[trigger] rest[k]).0 != key by {
                assert(s[k + 1].0 != key);
            }
        }
        if 0 < i < s.len() && s[i].0 == key && (forall|k: int|
            0 <= k < i ==> (#[trigger] s[k]).0 != key) {
            assert(s[0].0 != key);
            assert(rest[i - 1] == s[i]);
            assert forall|k: int| 0 <= k < i - 1 implies (#[trigger] rest[k]).0 != key by {
                assert(s[k + 1].0 != key);
            }
        }
    }
}

/// The text of a float is the one that was given for its bits, and what it prints as where none
/// was. A text that has no entry as a path is joined to nothing.
pub proof fn floats_print_as_themselves_without_a_text(r: Readings, n: NumberView, s: Seq<char>)
    ensures
        bits_entry(r.float_texts@, n.bits) is None ==> r.float_text(n) == n.shown,
        bits_entry(r.float_texts@, n.bits) is Some ==> r.float_text(n) == bits_entry(
            r.float_texts@,
            n.bits,
        )->0@,
        text_entry(r.paths.entries@, s) is None ==> r.path(s).in_working_dir == s && r.path(
            s,
        ).in_template_dir == s,
        text_entry(r.ranges.entries@, s) is None ==> r.range_refusal(s) is Some,
{
}

} // verus!
