//! `SchemaVersion`: the three-integer version of a strategy document.
use crate::text::{chars_of, concat2, concat3, digits, lemma_digits_are_digits, u64_text};
use std::cmp::Ordering;
use std::str::FromStr;
use vstd::prelude::*;
use vstd::string::*;

verus! {

/// The version that documents are written at, as text.
pub const DSL_SCHEMA_VERSION: &'static str = "1.1.0";

/// The version of a strategy document, ordered by major, then minor, then patch.
#[derive(Clone, Copy, Debug, PartialEq, Eq, Ord, Structural)]
pub struct SchemaVersion {
    /// Incremented on a breaking grammar change.
    pub major: u16,
    /// Incremented on a backward-compatible additive change.
    pub minor: u16,
    /// Patch version.
    pub patch: u16,
}

/// The version that documents are written at.
pub open spec fn current_version() -> SchemaVersion {
    SchemaVersion { major: 1, minor: 1, patch: 0 }
}

/// The place of a version among all versions.
pub open spec fn rank(v: SchemaVersion) -> nat {
    v.major as nat * 0x1_0000_0000 + v.minor as nat * 0x1_0000 + v.patch as nat
}

/// Whether one version comes before another.
pub open spec fn precedes(a: SchemaVersion, b: SchemaVersion) -> bool {
    ||| a.major < b.major
    ||| a.major == b.major && a.minor < b.minor
    ||| a.major == b.major && a.minor == b.minor && a.patch < b.patch
}

impl PartialOrd for SchemaVersion {
    fn partial_cmp(&self, other: &SchemaVersion) -> (r: Option<Ordering>) {
        if self.major != other.major {
            if self.major < other.major {
                Some(Ordering::Less)
            } else {
                Some(Ordering::Greater)
            }
        } else if self.minor != other.minor {
            if self.minor < other.minor {
                Some(Ordering::Less)
            } else {
                Some(Ordering::Greater)
            }
        } else if self.patch != other.patch {
            if self.patch < other.patch {
                Some(Ordering::Less)
            } else {
                Some(Ordering::Greater)
            }
        } else {
            Some(Ordering::Equal)
        }
    }
}

impl vstd::std_specs::cmp::PartialOrdSpecImpl for SchemaVersion {
    open spec fn obeys_partial_cmp_spec() -> bool {
        true
    }

    open spec fn partial_cmp_spec(&self, other: &SchemaVersion) -> Option<Ordering> {
        if precedes(*self, *other) {
            Some(Ordering::Less)
        } else if precedes(*other, *self) {
            Some(Ordering::Greater)
        } else {
            Some(Ordering::Equal)
        }
    }
}

/// The parts of a text between its full stops.
pub open spec fn dotted_parts(s: Seq<char>) -> Seq<Seq<char>>
    decreases s.len(),
{
    if s.len() == 0 {
        seq![Seq::empty()]
    } else {
        let parts = dotted_parts(s.drop_last());
        if s.last() == '.' {
            parts.push(Seq::empty())
        } else {
            parts.drop_last().push(parts.last().push(s.last()))
        }
    }
}

/// Whether a character is an ASCII digit.
pub open spec fn is_digit(c: char) -> bool {
    48 <= c as int <= 57
}

/// The number that a text of digits writes; `None` where a character is no digit.
pub open spec fn digits_value(s: Seq<char>) -> Option<nat>
    decreases s.len(),
{
    if s.len() == 0 {
        Some(0)
    } else {
        match digits_value(s.drop_last()) {
            Some(n) if is_digit(s.last()) => Some((10 * n + (s.last() as int - 48)) as nat),
            _ => None,
        }
    }
}

/// A text without its leading plus sign.
pub open spec fn unsigned(s: Seq<char>) -> Seq<char> {
    if s.len() > 0 && s[0] == '+' {
        s.subrange(1, s.len() as int)
    } else {
        s
    }
}

/// The 16-bit number that a text writes: digits, perhaps with a plus sign before them.
pub open spec fn parsed_u16(s: Seq<char>) -> Option<u16> {
    let body = unsigned(s);
    match digits_value(body) {
        Some(n) if body.len() > 0 && n <= 0xFFFF => Some(n as u16),
        _ => None,
    }
}

/// The version that a text writes: three numbers with full stops between them.
pub open spec fn parsed_version(s: Seq<char>) -> Option<SchemaVersion> {
    let parts = dotted_parts(s);
    if parts.len() != 3 {
        None
    } else {
        match (parsed_u16(parts[0]), parsed_u16(parts[1]), parsed_u16(parts[2])) {
            (Some(major), Some(minor), Some(patch)) => Some(SchemaVersion { major, minor, patch }),
            _ => None,
        }
    }
}

/// The text of a version.
pub open spec fn version_text(v: SchemaVersion) -> Seq<char> {
    digits(v.major as nat) + "."@ + digits(v.minor as nat) + "."@ + digits(v.patch as nat)
}

/// A text that is not a version.
#[derive(Clone, Debug, PartialEq, Eq)]
pub struct SchemaVersionParseError(String);

impl View for SchemaVersionParseError {
    type V = Seq<char>;

    /// The text that was refused.
    closed spec fn view(&self) -> Seq<char> {
        self.0@
    }
}

/// A text in double quotes, with what cannot be printed escaped.
pub uninterp spec fn quoted(s: Seq<char>) -> Seq<char>;

/// `<str as Debug>::fmt`. Claimed: the result depends on the text alone.
#[verifier::external_body]
pub(crate) fn debug_text(s: &str) -> (r: String)
    ensures
        r@ == quoted(s@),
{
    format!("{s:?}")
}

/// The text of the error about a text that is not a version.
pub open spec fn malformed_version_text(s: Seq<char>) -> Seq<char> {
    "malformed schema version "@ + quoted(s)
        + ": expected \"MAJOR.MINOR.PATCH\" (three u16 integers)"@
}

impl SchemaVersionParseError {
    /// The text of the error.
    pub fn to_string(&self) -> (r: String)
        ensures
            r@ == malformed_version_text(self@),
    {
        concat3(
            "malformed schema version ",
            debug_text(self.0.as_str()).as_str(),
            ": expected \"MAJOR.MINOR.PATCH\" (three u16 integers)",
        )
    }
}

/// The texts of a list.
spec fn views(parts: Seq<Vec<char>>) -> Seq<Seq<char>> {
    parts.map_values(|p: Vec<char>| p@)
}

fn split_dots(s: &str) -> (parts: Vec<Vec<char>>)
    ensures
        views(parts@) == dotted_parts(s@),
        parts@.len() > 0,
{
    let chars = chars_of(s);
    let mut parts: Vec<Vec<char>> = Vec::new();
    let mut last: Vec<char> = Vec::new();
    assert(chars@.take(0) =~= Seq::empty());
    assert(views(parts@).push(last@) =~= seq![Seq::<char>::empty()]);
    for i in 0..chars.len()
        invariant
            views(parts@).push(last@) == dotted_parts(chars@.take(i as int)),
    {
        let ghost next = chars@.take(i as int + 1);
        let ghost before = views(parts@);
        let ghost part = last@;
        assert(next.drop_last() =~= chars@.take(i as int));
        let c = chars[i];
        assert(next.last() == c);
        assert(before.push(part).drop_last() =~= before);
        assert(before.push(part).last() == part);
        if c == '.' {
            parts.push(last);
            last = Vec::new();
            assert(views(parts@) =~= before.push(part));
            assert(last@ =~= Seq::<char>::empty());
        } else {
            last.push(c);
        }
        assert(views(parts@).push(last@) =~= dotted_parts(next));
    }
    let ghost before = views(parts@);
    let ghost part = last@;
    assert(chars@.take(chars@.len() as int) =~= chars@);
    parts.push(last);
    assert(views(parts@) =~= before.push(part));
    parts
}

proof fn lemma_value_none(s: Seq<char>, n: int)
    requires
        0 <= n <= s.len(),
        digits_value(s.take(n)) is None,
    ensures
        digits_value(s) is None,
    decreases s.len() - n,
{
    if n < s.len() {
        assert(s.take(n + 1).drop_last() =~= s.take(n));
        lemma_value_none(s, n + 1);
    } else {
        assert(s.take(n) =~= s);
    }
}

proof fn lemma_value_grows(s: Seq<char>, n: int)
    requires
        0 <= n <= s.len(),
        digits_value(s) is Some,
    ensures
        digits_value(s.take(n)) is Some,
        digits_value(s.take(n))->0 <= digits_value(s)->0,
    decreases s.len() - n,
{
    if n < s.len() {
        assert(s.take(n + 1).drop_last() =~= s.take(n));
        lemma_value_grows(s, n + 1);
    } else {
        assert(s.take(n) =~= s);
    }
}

fn parse_u16(s: &Vec<char>) -> (r: Option<u16>)
    ensures
        r == parsed_u16(s@),
{
    let start: usize = if s.len() > 0 && s[0] == '+' {
        1
    } else {
        0
    };
    let ghost body = s@.subrange(start as int, s@.len() as int);
    assert(body =~= unsigned(s@));
    if start >= s.len() {
        return None;
    }
    let mut value: u32 = 0;
    assert(body.take(0) =~= Seq::empty());
    for i in start..s.len()
        invariant
            start <= 1,
            body == s@.subrange(start as int, s@.len() as int),
            body == unsigned(s@),
            body.len() > 0,
            digits_value(body.take(i - start)) == Some(value as nat),
            value <= 0xFFFF,
    {
        let c = s[i];
        let ghost next = body.take(i - start + 1);
        assert(next.drop_last() =~= body.take(i - start));
        assert(next.last() == c);
        if !('0' <= c && c <= '9') {
            proof {
                lemma_value_none(body, i - start + 1);
            }
            return None;
        }
        value = 10 * value + (c as u32 - 48);
        assert(digits_value(next) == Some(value as nat));
        if value > 0xFFFF {
            proof {
                if digits_value(body) is Some {
                    lemma_value_grows(body, i - start + 1);
                }
            }
            return None;
        }
    }
    assert(body.take(body.len() as int) =~= body);
    Some(value as u16)
}

impl SchemaVersion {
    /// The version that documents are written at.
    pub fn current() -> (r: SchemaVersion)
        ensures
            r == current_version(),
    {
        SchemaVersion { major: 1, minor: 1, patch: 0 }
    }

    /// The text `MAJOR.MINOR.PATCH`.
    ///
    /// The text reads back as the version.
    pub fn to_string(&self) -> (r: String)
        ensures
            r@ == version_text(*self),
            parsed_version(r@) == Some(*self),
    {
        let mut r = concat2(u64_text(self.major as u64).as_str(), ".");
        r.append(u64_text(self.minor as u64).as_str());
        r.append(".");
        r.append(u64_text(self.patch as u64).as_str());
        proof {
            law_version_text_reads_back(*self);
        }
        r
    }

    /// Reads a version from its text.
    pub fn parse(s: &str) -> (r: Result<SchemaVersion, SchemaVersionParseError>)
        ensures
            r is Ok <==> parsed_version(s@) is Some,
            r matches Ok(v) ==> parsed_version(s@) == Some(v),
            r matches Err(e) ==> e@ == s@,
    {
        let parts = split_dots(s);
        let ghost all = dotted_parts(s@);
        assert(views(parts@).len() == parts@.len());
        if parts.len() != 3 {
            return Err(SchemaVersionParseError(s.to_owned()));
        }
        assert(all[0] == parts@[0]@);
        assert(all[1] == parts@[1]@);
        assert(all[2] == parts@[2]@);
        match (parse_u16(&parts[0]), parse_u16(&parts[1]), parse_u16(&parts[2])) {
            (Some(major), Some(minor), Some(patch)) => Ok(SchemaVersion { major, minor, patch }),
            _ => Err(SchemaVersionParseError(s.to_owned())),
        }
    }
}

impl FromStr for SchemaVersion {
    type Err = SchemaVersionParseError;

    fn from_str(s: &str) -> (r: Result<SchemaVersion, SchemaVersionParseError>)
        ensures
            r is Ok <==> parsed_version(s@) is Some,
            r matches Ok(v) ==> parsed_version(s@) == Some(v),
            r matches Err(e) ==> e@ == s@,
    {
        SchemaVersion::parse(s)
    }
}

// ---------------------------------------------------------------------------
// Laws.
// ---------------------------------------------------------------------------

proof fn lemma_digits_value(n: nat)
    ensures
        digits_value(digits(n)) == Some(n),
    decreases n,
{
    let s = digits(n);
    if n < 10 {
        assert(s.drop_last() =~= Seq::empty());
        assert(digits_value(s.drop_last()) == Some(0nat));
    } else {
        lemma_digits_value(n / 10);
        assert(s.drop_last() =~= digits(n / 10));
    }
}

/// A text without full stops goes on in the last part.
proof fn lemma_parts_extend(s: Seq<char>, t: Seq<char>)
    requires
        forall|i: int| 0 <= i < t.len() ==> #[trigger] t[i] != '.',
    ensures
        dotted_parts(s).len() > 0,
        dotted_parts(s + t) == dotted_parts(s).drop_last().push(dotted_parts(s).last() + t),
    decreases t.len(),
{
    lemma_parts_not_empty(s);
    let parts = dotted_parts(s);
    if t.len() == 0 {
        assert(s + t =~= s);
        assert(parts.last() + t =~= parts.last());
        assert(dotted_parts(s + t) =~= parts.drop_last().push(parts.last() + t));
    } else {
        let init = t.drop_last();
        assert forall|i: int| 0 <= i < init.len() implies #[trigger] init[i] != '.' by {
            assert(t[i] != '.');
        }
        lemma_parts_extend(s, init);
        assert((s + t).drop_last() =~= s + init);
        let k = t.len() - 1;
        assert(t[k] != '.');
        assert((s + t).last() == t.last());
        let earlier = dotted_parts(s + init);
        assert(earlier.drop_last() =~= parts.drop_last());
        assert(earlier.last() == parts.last() + init);
        assert((parts.last() + init).push(t.last()) =~= parts.last() + t);
    }
}

proof fn lemma_parts_not_empty(s: Seq<char>)
    ensures
        dotted_parts(s).len() > 0,
    decreases s.len(),
{
    if s.len() > 0 {
        lemma_parts_not_empty(s.drop_last());
    }
}

proof fn lemma_parts_dot(s: Seq<char>)
    ensures
        dotted_parts(s + "."@) == dotted_parts(s).push(Seq::empty()),
{
    reveal_strlit(".");
    assert((s + "."@).drop_last() =~= s);
    assert((s + "."@).last() == '.');
}

proof fn lemma_digits_parse(n: u16)
    ensures
        parsed_u16(digits(n as nat)) == Some(n),
        forall|i: int|
            0 <= i < digits(n as nat).len() ==> is_digit(#[trigger] digits(n as nat)[i]),
{
    lemma_digits_value(n as nat);
    lemma_digits_are_digits(n as nat);
    let s = digits(n as nat);
    assert forall|i: int| 0 <= i < s.len() implies is_digit(#[trigger] s[i]) by {}
    assert(is_digit(s[0]));
    assert(unsigned(s) == s);
}

/// The text of a version reads back as that version.
pub proof fn law_version_text_reads_back(v: SchemaVersion)
    ensures
        parsed_version(version_text(v)) == Some(v),
{
    let a = digits(v.major as nat);
    let b = digits(v.minor as nat);
    let c = digits(v.patch as nat);
    lemma_digits_parse(v.major);
    lemma_digits_parse(v.minor);
    lemma_digits_parse(v.patch);
    assert forall|i: int| 0 <= i < a.len() implies #[trigger] a[i] != '.' by {
        assert(is_digit(a[i]));
    }
    assert forall|i: int| 0 <= i < b.len() implies #[trigger] b[i] != '.' by {
        assert(is_digit(b[i]));
    }
    assert forall|i: int| 0 <= i < c.len() implies #[trigger] c[i] != '.' by {
        assert(is_digit(c[i]));
    }
    lemma_three_parts(a, b, c);
}

proof fn lemma_three_parts(a: Seq<char>, b: Seq<char>, c: Seq<char>)
    requires
        forall|i: int| 0 <= i < a.len() ==> #[trigger] a[i] != '.',
        forall|i: int| 0 <= i < b.len() ==> #[trigger] b[i] != '.',
        forall|i: int| 0 <= i < c.len() ==> #[trigger] c[i] != '.',
    ensures
        dotted_parts(a + "."@ + b + "."@ + c) == seq![a, b, c],
{
    let e = Seq::<char>::empty();
    assert(dotted_parts(e) == seq![e]);
    lemma_parts_extend(e, a);
    assert(e + a =~= a);
    assert(dotted_parts(a) =~= seq![a]);
    lemma_parts_dot(a);
    lemma_parts_extend(a + "."@, b);
    assert(e + b =~= b);
    assert(dotted_parts(a + "."@ + b) =~= seq![a, b]);
    lemma_parts_dot(a + "."@ + b);
    lemma_parts_extend(a + "."@ + b + "."@, c);
    assert(e + c =~= c);
    assert(dotted_parts(a + "."@ + b + "."@ + c) =~= seq![a, b, c]);
}

/// Versions are ordered as their ranks: of two versions one comes first, or they are
/// the same.
pub proof fn law_versions_are_ordered(a: SchemaVersion, b: SchemaVersion)
    ensures
        precedes(a, b) <==> rank(a) < rank(b),
        a == b <==> rank(a) == rank(b),
{
}

/// The written form of the current version is its text, and reads back as it.
pub proof fn law_current_version_is_written_as_stated()
    ensures
        version_text(current_version()) == DSL_SCHEMA_VERSION@,
        parsed_version(DSL_SCHEMA_VERSION@) == Some(current_version()),
{
    reveal_strlit("1.1.0");
    reveal_strlit(".");
    law_version_text_reads_back(current_version());
    assert(digits(1) == seq!['1']);
    assert(digits(0) == seq!['0']);
    assert(version_text(current_version()) =~= DSL_SCHEMA_VERSION@);
}

/// A version comes before another where its first number that differs is the smaller one:
/// the major number decides, then the minor one, then the patch.
pub proof fn law_first_difference_decides(a: SchemaVersion, b: SchemaVersion)
    ensures
        a.major < b.major ==> precedes(a, b) && !precedes(b, a),
        a.major == b.major && a.minor < b.minor ==> precedes(a, b) && !precedes(b, a),
        a.major == b.major && a.minor == b.minor && a.patch < b.patch ==> precedes(a, b)
            && !precedes(b, a),
        a == b ==> !precedes(a, b),
        a != b ==> precedes(a, b) != precedes(b, a),
{
}

/// The parts of a text hold no full stop; three of them, with full stops between, are the
/// text.
pub proof fn law_parts_are_between_full_stops(s: Seq<char>)
    ensures
        dotted_parts(s).len() >= 1,
        forall|i: int, k: int|
            0 <= i < dotted_parts(s).len() && 0 <= k < dotted_parts(s)[i].len() ==> (
            #[trigger] dotted_parts(s)[i][k]) != '.',
        dotted_parts(s).len() == 1 ==> s == dotted_parts(s)[0],
        dotted_parts(s).len() == 2 ==> s == dotted_parts(s)[0] + seq!['.'] + dotted_parts(s)[1],
        dotted_parts(s).len() == 3 ==> s == dotted_parts(s)[0] + seq!['.'] + dotted_parts(s)[1]
            + seq!['.'] + dotted_parts(s)[2],
    decreases s.len(),
{
    if s.len() > 0 {
        let t = s.drop_last();
        let c = s.last();
        law_parts_are_between_full_stops(t);
        let before = dotted_parts(t);
        let parts = dotted_parts(s);
        assert(s =~= t.push(c));
        if c == '.' {
            assert(parts == before.push(Seq::empty()));
            assert forall|i: int, k: int| 0 <= i < parts.len() && 0 <= k < parts[i].len() implies (
            #[trigger] parts[i][k]) != '.' by {
                if i < before.len() {
                    assert(parts[i] == before[i]);
                    assert(before[i][k] != '.');
                }
            }
            if parts.len() == 2 {
                assert(s =~= parts[0] + seq!['.'] + parts[1]);
            }
            if parts.len() == 3 {
                assert(s =~= parts[0] + seq!['.'] + parts[1] + seq!['.'] + parts[2]);
            }
        } else {
            let last = before.last().push(c);
            assert(parts == before.drop_last().push(last));
            assert forall|i: int, k: int| 0 <= i < parts.len() && 0 <= k < parts[i].len() implies (
            #[trigger] parts[i][k]) != '.' by {
                if i < before.len() - 1 {
                    assert(parts[i] == before[i]);
                    assert(before[i][k] != '.');
                } else if k < before.last().len() {
                    assert(before[before.len() - 1][k] != '.');
                }
            }
            if parts.len() == 1 {
                assert(s =~= parts[0]);
            }
            if parts.len() == 2 {
                assert(s =~= parts[0] + seq!['.'] + parts[1]);
            }
            if parts.len() == 3 {
                assert(s =~= parts[0] + seq!['.'] + parts[1] + seq!['.'] + parts[2]);
            }
        }
    } else {
        assert(s =~= Seq::empty());
    }
}

/// A text of digits writes a number exactly where every character is one of the ten digits,
/// and a digit more is ten times the number and the digit.
pub proof fn law_numbers_are_written_in_digits(s: Seq<char>, c: char)
    ensures
        digits_value(s) is Some <==> forall|i: int|
            0 <= i < s.len() ==> '0' <= #[trigger] s[i] && s[i] <= '9',
        digits_value(s) is Some && '0' <= c && c <= '9' ==> digits_value(s.push(c)) == Some(
            (10 * digits_value(s)->0 + (c as int - 48)) as nat,
        ),
    decreases s.len(),
{
    assert(s.push(c).drop_last() =~= s);
    if s.len() > 0 {
        let t = s.drop_last();
        law_numbers_are_written_in_digits(t, c);
        if digits_value(s) is Some {
            assert forall|i: int| 0 <= i < s.len() implies '0' <= #[trigger] s[i] && s[i] <= '9' by {
                if i < t.len() {
                    assert(t[i] == s[i]);
                }
            }
        }
        if forall|i: int| 0 <= i < s.len() ==> '0' <= #[trigger] s[i] && s[i] <= '9' {
            assert forall|i: int| 0 <= i < t.len() implies '0' <= #[trigger] t[i] && t[i] <= '9' by {
                assert(t[i] == s[i]);
            }
            assert('0' <= s[s.len() - 1] && s[s.len() - 1] <= '9');
        }
    }
}

/// A text is a version exactly where it is three numbers of at most 16 bits with full stops
/// between them; a number may have a plus sign in front, and nothing else.
pub proof fn law_versions_are_three_numbers(s: Seq<char>, v: SchemaVersion)
    ensures
        parsed_version(s) == Some(v) <==> exists|a: Seq<char>, b: Seq<char>, c: Seq<char>|
            s == #[trigger] (a + "."@ + b + "."@ + c) && writes(a, v.major as nat) && writes(
                b,
                v.minor as nat,
            ) && writes(c, v.patch as nat),
{
    reveal_strlit(".");
    assert("."@ =~= seq!['.']);
    if parsed_version(s) == Some(v) {
        law_parts_are_between_full_stops(s);
        let parts = dotted_parts(s);
        let a = parts[0];
        let b = parts[1];
        let c = parts[2];
        lemma_unsigned(a);
        lemma_unsigned(b);
        lemma_unsigned(c);
        assert(writes(a, v.major as nat)) by {
            assert(digits_value(unsigned(a)) == Some(v.major as nat));
        }
        assert(writes(b, v.minor as nat)) by {
            assert(digits_value(unsigned(b)) == Some(v.minor as nat));
        }
        assert(writes(c, v.patch as nat)) by {
            assert(digits_value(unsigned(c)) == Some(v.patch as nat));
        }
        assert(s == a + "."@ + b + "."@ + c);
    }
    if exists|a: Seq<char>, b: Seq<char>, c: Seq<char>|
        s == #[trigger] (a + "."@ + b + "."@ + c) && writes(a, v.major as nat) && writes(
            b,
            v.minor as nat,
        ) && writes(c, v.patch as nat) {
        let (a, b, c) = choose|a: Seq<char>, b: Seq<char>, c: Seq<char>|
            s == #[trigger] (a + "."@ + b + "."@ + c) && writes(a, v.major as nat) && writes(
                b,
                v.minor as nat,
            ) && writes(c, v.patch as nat);
        lemma_written(a, v.major);
        lemma_written(b, v.minor);
        lemma_written(c, v.patch);
        lemma_three_parts(a, b, c);
    }
}

/// A written number reads as that number, and has no full stop.
proof fn lemma_written(s: Seq<char>, n: u16)
    requires
        writes(s, n as nat),
    ensures
        parsed_u16(s) == Some(n),
        forall|i: int| 0 <= i < s.len() ==> #[trigger] s[i] != '.',
{
    let body = choose|body: Seq<char>|
        (s == body || s == seq!['+'] + body) && body.len() > 0 && #[trigger] digits_value(body)
            == Some(n as nat);
    law_numbers_are_written_in_digits(body, '0');
    assert('0' <= body[0] && body[0] <= '9');
    if s == body {
        assert(unsigned(s) == body);
    } else {
        assert(s[0] == '+');
        assert(unsigned(s) =~= body);
        assert forall|i: int| 0 <= i < s.len() implies #[trigger] s[i] != '.' by {
            if i > 0 {
                assert(s[i] == body[i - 1]);
            }
        }
    }
}

proof fn lemma_unsigned(s: Seq<char>)
    ensures
        unsigned(s) == s || s == seq!['+'] + unsigned(s),
{
    if s.len() > 0 && s[0] == '+' {
        assert(s =~= seq!['+'] + unsigned(s));
    }
}

/// Whether a text is a number in digits, perhaps behind a plus sign.
pub open spec fn writes(s: Seq<char>, n: nat) -> bool {
    exists|body: Seq<char>|
        (s == body || s == seq!['+'] + body) && body.len() > 0 && #[trigger] digits_value(body)
            == Some(n)
}

} // verus!
