//! Client versions of the form `MAJOR.MINOR[-tag]`.

use vstd::prelude::*;

use crate::text::push_char;

verus! {

/// A client version: major, minor, and a free-form release tag.
/// Versions compare by `(major, minor)`; the tag takes no part in comparison.
pub struct Version(pub i32, pub i32, pub String);

pub open spec fn is_digit(c: char) -> bool {
    '0' <= c && c <= '9'
}

/// The value of a string of decimal digits.
pub open spec fn digits_value(s: Seq<char>) -> int
    decreases s.len(),
{
    if s.len() == 0 {
        0
    } else {
        digits_value(s.drop_last()) * 10 + (s.last() as int - '0' as int)
    }
}

/// A non-empty run of decimal digits whose value fits in an `i32`.
pub open spec fn is_number(s: Seq<char>) -> bool {
    &&& s.len() > 0
    &&& forall|i: int| 0 <= i < s.len() ==> is_digit(#[trigger] s[i])
    &&& digits_value(s) <= i32::MAX
}

/// Position of the first `c` in `s` at or after `from`, or `s.len()` when there is none.
pub open spec fn find_char(s: Seq<char>, c: char, from: int) -> int
    decreases s.len() - from,
{
    if from < 0 || from >= s.len() {
        s.len() as int
    } else if s[from] == c {
        from
    } else {
        find_char(s, c, from + 1)
    }
}

/// End of the numeric part: the first `-`, or the end of the text.
pub open spec fn dash_pos(s: Seq<char>) -> int {
    find_char(s, '-', 0)
}

/// The first `.` before the dash.
pub open spec fn dot_pos(s: Seq<char>) -> int {
    find_char(s.subrange(0, dash_pos(s)), '.', 0)
}

pub open spec fn major_text(s: Seq<char>) -> Seq<char> {
    s.subrange(0, dot_pos(s))
}

pub open spec fn minor_text(s: Seq<char>) -> Seq<char> {
    s.subrange(dot_pos(s) + 1, dash_pos(s))
}

pub open spec fn tag_text(s: Seq<char>) -> Seq<char> {
    if dash_pos(s) < s.len() {
        s.subrange(dash_pos(s) + 1, s.len() as int)
    } else {
        Seq::empty()
    }
}

/// Whether `s` is a well-formed version text.
pub open spec fn is_version_text(s: Seq<char>) -> bool {
    &&& dot_pos(s) < dash_pos(s)
    &&& is_number(major_text(s))
    &&& is_number(minor_text(s))
}

/// `(major, minor)` of `a` is lexicographically below that of `b`.
pub open spec fn version_lt(a: (int, int), b: (int, int)) -> bool {
    a.0 < b.0 || (a.0 == b.0 && a.1 < b.1)
}

impl Version {
    pub open spec fn key(&self) -> (int, int) {
        (self.0 as int, self.1 as int)
    }

    /// Reads a version text. Fails unless the text before the first `-` is
    /// two decimal numbers that fit in an `i32`, joined by one `.`.
    pub fn parse(value: &str) -> (r: Result<Version, ()>)
        ensures
            r is Ok <==> is_version_text(value@),
            r matches Ok(v) ==> {
                &&& v.0 as int == digits_value(major_text(value@))
                &&& v.1 as int == digits_value(minor_text(value@))
                &&& v.2@ == tag_text(value@)
            },
    {
        let chars = chars_of(value);
        let len = chars.len();
        let dash = find_in(&chars, '-', 0, len);
        proof {
            lemma_find_prefix(value@, '-', dash as int);
        }
        let dot = find_in(&chars, '.', 0, dash);
        proof {
            lemma_find_in_prefix(value@, dash as int, '.', dot as int);
        }
        if dot >= dash {
            return Err(());
        }
        let major = parse_number(&chars, 0, dot);
        let minor = parse_number(&chars, dot + 1, dash);
        match (major, minor) {
            (Some(a), Some(b)) => {
                let mut tag = String::new();
                if dash < len {
                    tag = string_of(&chars, dash + 1, len);
                }
                assert(tag@ =~= tag_text(value@));
                Ok(Version(a, b, tag))
            },
            _ => Err(()),
        }
    }

    /// Whether this version is below `other`, comparing `(major, minor)`.
    pub fn is_below(&self, other: &Version) -> (r: bool)
        ensures
            r == version_lt(self.key(), other.key()),
    {
        self.0 < other.0 || (self.0 == other.0 && self.1 < other.1)
    }
}

impl PartialEq for Version {
    fn eq(&self, other: &Version) -> (r: bool) {
        self.0 == other.0 && self.1 == other.1
    }
}

impl vstd::std_specs::cmp::PartialEqSpecImpl for Version {
    open spec fn obeys_eq_spec() -> bool {
        true
    }

    open spec fn eq_spec(&self, other: &Version) -> bool {
        self.0 == other.0 && self.1 == other.1
    }
}

impl PartialOrd for Version {
    fn partial_cmp(&self, other: &Version) -> (r: Option<core::cmp::Ordering>) {
        if self.0 < other.0 {
            Some(core::cmp::Ordering::Less)
        } else if self.0 > other.0 {
            Some(core::cmp::Ordering::Greater)
        } else if self.1 < other.1 {
            Some(core::cmp::Ordering::Less)
        } else if self.1 > other.1 {
            Some(core::cmp::Ordering::Greater)
        } else {
            Some(core::cmp::Ordering::Equal)
        }
    }
}

impl vstd::std_specs::cmp::PartialOrdSpecImpl for Version {
    open spec fn obeys_partial_cmp_spec() -> bool {
        true
    }

    open spec fn partial_cmp_spec(&self, other: &Version) -> Option<core::cmp::Ordering> {
        if version_lt(self.key(), other.key()) {
            Some(core::cmp::Ordering::Less)
        } else if version_lt(other.key(), self.key()) {
            Some(core::cmp::Ordering::Greater)
        } else {
            Some(core::cmp::Ordering::Equal)
        }
    }
}

/// The characters of `s`, in order.
fn chars_of(s: &str) -> (r: Vec<char>)
    ensures
        r@ == s@,
{
    let n = s.unicode_len();
    let mut r: Vec<char> = Vec::new();
    let mut i: usize = 0;
    while i < n
        invariant
            n == s@.len(),
            i <= n,
            r@ == s@.subrange(0, i as int),
        decreases n - i,
    {
        r.push(s.get_char(i));
        i = i + 1;
    }
    assert(r@ =~= s@);
    r
}

/// The text made of `v[from..to]`.
fn string_of(v: &Vec<char>, from: usize, to: usize) -> (r: String)
    requires
        from <= to <= v@.len(),
    ensures
        r@ == v@.subrange(from as int, to as int),
{
    let mut r = String::new();
    let mut i = from;
    while i < to
        invariant
            from <= i <= to <= v@.len(),
            r@ == v@.subrange(from as int, i as int),
        decreases to - i,
    {
        push_char(&mut r, v[i]);
        assert(r@ =~= v@.subrange(from as int, i + 1));
        i = i + 1;
    }
    r
}

/// Index of the first `c` in `v[from..to]`, or `to`.
fn find_in(v: &Vec<char>, c: char, from: usize, to: usize) -> (r: usize)
    requires
        from <= to <= v@.len(),
    ensures
        r == find_char(v@.subrange(0, to as int), c, from as int),
        from <= r <= to,
{
    let mut i = from;
    while i < to
        invariant
            from <= i <= to <= v@.len(),
            find_char(v@.subrange(0, to as int), c, from as int)
                == find_char(v@.subrange(0, to as int), c, i as int),
        decreases to - i,
    {
        if v[i] == c {
            return i;
        }
        i = i + 1;
    }
    i
}

proof fn lemma_find_prefix(s: Seq<char>, c: char, r: int)
    requires
        r == find_char(s.subrange(0, s.len() as int), c, 0),
    ensures
        r == find_char(s, c, 0),
{
    assert(s.subrange(0, s.len() as int) =~= s);
}

proof fn lemma_find_in_prefix(s: Seq<char>, d: int, c: char, r: int)
    requires
        d == find_char(s, '-', 0),
        0 <= d <= s.len(),
        r == find_char(s.subrange(0, d), c, 0),
    ensures
        c == '.' ==> r == dot_pos(s),
{
}

proof fn lemma_digits_step(s: Seq<char>, i: int)
    requires
        0 <= i < s.len(),
    ensures
        digits_value(s.subrange(0, i + 1)) == digits_value(s.subrange(0, i)) * 10
            + (s[i] as int - '0' as int),
{
    assert(s.subrange(0, i + 1).drop_last() =~= s.subrange(0, i));
}

proof fn lemma_digits_grow(s: Seq<char>, i: int)
    requires
        0 <= i <= s.len(),
        forall|k: int| 0 <= k < s.len() ==> is_digit(#[trigger] s[k]),
    ensures
        digits_value(s.subrange(0, i)) <= digits_value(s),
        digits_value(s.subrange(0, i)) >= 0,
    decreases s.len() - i,
{
    if i == s.len() {
        assert(s.subrange(0, i) =~= s);
        lemma_digits_nonneg(s);
    } else {
        lemma_digits_step(s, i);
        lemma_digits_nonneg(s.subrange(0, i));
        lemma_digits_grow(s, i + 1);
    }
}

proof fn lemma_digits_nonneg(s: Seq<char>)
    requires
        forall|k: int| 0 <= k < s.len() ==> is_digit(#[trigger] s[k]),
    ensures
        digits_value(s) >= 0,
    decreases s.len(),
{
    if s.len() > 0 {
        lemma_digits_nonneg(s.drop_last());
    }
}

/// The number written in `v[from..to]`, if it is one that fits in an `i32`.
fn parse_number(v: &Vec<char>, from: usize, to: usize) -> (r: Option<i32>)
    requires
        from <= to <= v@.len(),
    ensures
        r is Some <==> is_number(v@.subrange(from as int, to as int)),
        r matches Some(n) ==> n as int == digits_value(v@.subrange(from as int, to as int)),
{
    let ghost s = v@.subrange(from as int, to as int);
    if from == to {
        return None;
    }
    let mut i = from;
    while i < to
        invariant
            from <= i <= to <= v@.len(),
            s == v@.subrange(from as int, to as int),
            forall|k: int| from <= k < i ==> is_digit(#[trigger] v@[k]),
        decreases to - i,
    {
        if !(v[i] >= '0' && v[i] <= '9') {
            assert(!is_digit(s[i - from]));
            return None;
        }
        i = i + 1;
    }
    assert forall|k: int| 0 <= k < s.len() implies is_digit(#[trigger] s[k]) by {
        assert(s[k] == v@[k + from]);
    }
    let mut value: i32 = 0;
    let mut j = from;
    while j < to
        invariant
            from <= j <= to <= v@.len(),
            s == v@.subrange(from as int, to as int),
            forall|k: int| 0 <= k < s.len() ==> is_digit(#[trigger] s[k]),
            value as int == digits_value(s.subrange(0, j - from)),
            0 <= value,
        decreases to - j,
    {
        proof {
            lemma_digits_step(s, j - from);
            assert(s[j - from] == v@[j as int]);
        }
        let c = v[j];
        let d = (c as u32 - '0' as u32) as i32;
        if value > (i32::MAX - d) / 10 {
            proof {
                lemma_digits_grow(s, j - from + 1);
            }
            return None;
        }
        value = value * 10 + d;
        j = j + 1;
    }
    assert(s.subrange(0, s.len() as int) =~= s);
    Some(value)
}

} // verus!
