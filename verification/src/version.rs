use vstd::prelude::*;

verus! {

use crate::text::{ascii_digit, chars_to_string, split_on, split_char};

/// The reason a decimal segment failed to parse as a number.
#[derive(Debug, Clone, Copy, PartialEq, Eq, Structural)]
pub enum ParseIntError {
    /// The segment was empty.
    Empty,
    /// A character was not a decimal digit, or only a sign was given.
    InvalidDigit,
    /// The value does not fit the number type.
    PosOverflow,
}

/// The reason a version string failed to parse.
#[derive(Debug, Clone, Copy, PartialEq, Eq, Structural)]
pub enum ParseVersionError {
    /// The string does not have exactly 4 dot-separated segments; the payload
    /// is the number of segments found.
    BadSegmentLength(usize),
    /// A segment failed to parse as a number.
    ParseIntError(ParseIntError),
}

/// The character of a single decimal digit value.
pub open spec fn dec_digit(n: nat) -> char {
    ((48 + n % 10) as u8) as char
}

/// The value of a decimal digit character.
pub open spec fn digit_val(c: char) -> nat {
    (c as int - 48) as nat
}

/// The canonical decimal form of a number: no sign, no leading zero except
/// for zero itself.
pub open spec fn dec_rep(n: nat) -> Seq<char>
    decreases n,
{
    if n < 10 {
        seq![dec_digit(n)]
    } else {
        dec_rep(n / 10) + seq![dec_digit(n % 10)]
    }
}

/// The value of a string of decimal digits.
pub open spec fn dec_value(s: Seq<char>) -> nat
    decreases s.len(),
{
    if s.len() == 0 {
        0
    } else {
        dec_value(s.drop_last()) * 10 + digit_val(s.last())
    }
}

/// Every character is a decimal digit.
pub open spec fn all_digits(s: Seq<char>) -> bool {
    forall|i: int| 0 <= i < s.len() ==> ascii_digit(#[trigger] s[i])
}

/// The string with one leading `+` removed, as the number parser accepts.
pub open spec fn stripped_plus(s: Seq<char>) -> Seq<char> {
    if s.len() > 0 && s[0] == '+' {
        s.drop_first()
    } else {
        s
    }
}

/// The length of the longest all-digit prefix.
pub open spec fn digits_prefix_len(s: Seq<char>) -> int
    decreases s.len(),
{
    if s.len() == 0 || !ascii_digit(s[0]) {
        0
    } else {
        1 + digits_prefix_len(s.drop_first())
    }
}

pub proof fn lemma_digits_prefix_len_bound(s: Seq<char>)
    ensures
        0 <= digits_prefix_len(s) <= s.len(),
        all_digits(s.take(digits_prefix_len(s))),
        digits_prefix_len(s) < s.len() ==> !ascii_digit(s[digits_prefix_len(s)]),
        all_digits(s) ==> digits_prefix_len(s) == s.len(),
    decreases s.len(),
{
    if s.len() != 0 && ascii_digit(s[0]) {
        lemma_digits_prefix_len_bound(s.drop_first());
        let d = digits_prefix_len(s);
        assert(s.drop_first().take(d - 1) =~= s.take(d).drop_first());
        assert forall|i: int| 0 <= i < d implies ascii_digit(#[trigger] s.take(d)[i]) by {
            if i > 0 {
                assert(s.take(d)[i] == s.drop_first().take(d - 1)[i - 1]);
            }
        }
        if d < s.len() {
            assert(s[d] == s.drop_first()[d - 1]);
        }
        if all_digits(s) {
            assert forall|i: int| 0 <= i < s.drop_first().len() implies ascii_digit(
                #[trigger] s.drop_first()[i],
            ) by {
                assert(s.drop_first()[i] == s[i + 1]);
            }
        }
    }
}

/// If every character before `k` is a digit and `k` is the length or a
/// non-digit position, then `k` is the digit-prefix length.
pub proof fn lemma_digits_prefix_len_is(s: Seq<char>, k: int)
    requires
        0 <= k <= s.len(),
        forall|i: int| 0 <= i < k ==> ascii_digit(#[trigger] s[i]),
        k < s.len() ==> !ascii_digit(s[k]),
    ensures
        digits_prefix_len(s) == k,
    decreases s.len(),
{
    if s.len() != 0 && ascii_digit(s[0]) {
        assert(k >= 1);
        lemma_digits_prefix_len_is(s.drop_first(), k - 1);
    }
}

/// A longer digit prefix has at least the value of a shorter one.
pub proof fn lemma_dec_value_take_monotone(s: Seq<char>, m1: int, m2: int)
    requires
        0 <= m1 <= m2 <= s.len(),
    ensures
        dec_value(s.take(m1)) <= dec_value(s.take(m2)),
    decreases m2 - m1,
{
    if m1 < m2 {
        lemma_dec_value_take_monotone(s, m1, m2 - 1);
        assert(s.take(m2).drop_last() =~= s.take(m2 - 1));
        assert(dec_value(s.take(m2)) == dec_value(s.take(m2 - 1)) * 10 + digit_val(
            s.take(m2).last(),
        ));
    }
}

/// One more character extends the value by one digit.
pub proof fn lemma_dec_value_take_step(s: Seq<char>, m: int)
    requires
        0 <= m < s.len(),
    ensures
        dec_value(s.take(m + 1)) == dec_value(s.take(m)) * 10 + digit_val(s[m]),
{
    assert(s.take(m + 1).drop_last() =~= s.take(m));
    assert(s.take(m + 1).last() == s[m]);
}

/// Parse an unsigned 32-bit number from decimal text: an optional leading
/// `+`, then one or more decimal digits whose value fits.
pub fn parse_u32(s: &str) -> (r: Result<u32, ParseIntError>)
    ensures
        ({
            let t = stripped_plus(s@);
            let dpl = digits_prefix_len(t);
            &&& (r matches Ok(v) ==> v as nat == dec_value(t))
            &&& (r matches Ok(v) <==> (t.len() > 0 && all_digits(t) && dec_value(t)
                <= u32::MAX))
            &&& (r == Err::<u32, ParseIntError>(ParseIntError::Empty) <==> s@.len() == 0)
            &&& (r == Err::<u32, ParseIntError>(ParseIntError::PosOverflow) <==> (t.len() > 0 && dec_value(
                t.take(dpl),
            ) > u32::MAX))
            &&& (r == Err::<u32, ParseIntError>(ParseIntError::InvalidDigit) <==> (s@.len() > 0 && (t.len() == 0 || (
            dpl < t.len() && dec_value(t.take(dpl)) <= u32::MAX))))
        }),
{
    let n = s.unicode_len();
    if n == 0 {
        return Err(ParseIntError::Empty);
    }
    let start: usize = if s.get_char(0) == '+' {
        1
    } else {
        0
    };
    let ghost t = stripped_plus(s@);
    proof {
        assert(t =~= s@.skip(start as int));
        lemma_digits_prefix_len_bound(t);
    }
    if start == n {
        proof {
            assert(t.len() == 0);
        }
        return Err(ParseIntError::InvalidDigit);
    }
    let mut acc: u64 = 0;
    let mut i: usize = start;
    while i < n
        invariant
            start <= i <= n,
            n == s@.len(),
            n > start,
            t == stripped_plus(s@),
            t == s@.skip(start as int),
            t.len() == n - start,
            forall|j: int| 0 <= j < i - start ==> ascii_digit(#[trigger] t[j]),
            acc as nat == dec_value(t.take(i - start)),
            acc <= u32::MAX,
        decreases n - i,
    {
        let ghost m = i - start;
        let c = s.get_char(i);
        proof {
            assert(t[m] == s@[i as int]);
        }
        if !('0' <= c && c <= '9') {
            proof {
                lemma_digits_prefix_len_is(t, m);
                lemma_digits_prefix_len_bound(t);
            }
            return Err(ParseIntError::InvalidDigit);
        }
        let d: u64 = (c as u32 - 48) as u64;
        let next: u64 = acc * 10 + d;
        proof {
            lemma_dec_value_take_step(t, m);
            assert(next as nat == dec_value(t.take(m + 1)));
        }
        if next > 0xffff_ffff {
            proof {
                let dpl = digits_prefix_len(t);
                lemma_digits_prefix_len_bound(t);
                assert(ascii_digit(t[m]));
                if dpl < m + 1 {
                    assert(ascii_digit(t[dpl]));
                    assert(false);
                }
                lemma_dec_value_take_monotone(t, m + 1, dpl);
                assert(t.take(t.len() as int) =~= t);
            }
            return Err(ParseIntError::PosOverflow);
        }
        acc = next;
        i += 1;
    }
    proof {
        assert(t.take(n - start) =~= t);
        lemma_digits_prefix_len_is(t, t.len() as int);
    }
    Ok(acc as u32)
}

/// A dot-separated segment that parses as a number: an optional `+`, then
/// digits whose value fits a 32-bit number.
pub open spec fn seg_ok(s: Seq<char>) -> bool {
    let t = stripped_plus(s);
    t.len() > 0 && all_digits(t) && dec_value(t) <= u32::MAX
}

/// The parsed value of a segment.
pub open spec fn seg_val(s: Seq<char>) -> nat {
    dec_value(stripped_plus(s))
}

/// The error a bad segment parses to.
pub open spec fn seg_err(s: Seq<char>) -> ParseIntError {
    let t = stripped_plus(s);
    let dpl = digits_prefix_len(t);
    if s.len() == 0 {
        ParseIntError::Empty
    } else if t.len() > 0 && dec_value(t.take(dpl)) > u32::MAX {
        ParseIntError::PosOverflow
    } else {
        ParseIntError::InvalidDigit
    }
}

/// The canonical display form `a.b.c.d` of a version tuple.
pub open spec fn version_repr(n1: u32, n2: u32, n3: u32, n4: u32) -> Seq<char> {
    dec_rep(n1 as nat) + seq!['.'] + dec_rep(n2 as nat) + seq!['.'] + dec_rep(n3 as nat)
        + seq!['.'] + dec_rep(n4 as nat)
}

/// Append the decimal form of `n` to `out`.
fn push_dec(n: u32, out: &mut Vec<char>)
    ensures
        final(out)@ == old(out)@ + dec_rep(n as nat),
    decreases n,
{
    if n < 10 {
        out.push(((48 + n) as u8) as char);
        proof {
            assert(out@ =~= old(out)@ + dec_rep(n as nat));
        }
    } else {
        let ghost pre = out@;
        push_dec(n / 10, out);
        out.push(((48 + n % 10) as u8) as char);
        proof {
            assert(out@ =~= pre + dec_rep(n as nat));
        }
    }
}

/// A mod version: a 4-component number tuple, ordered and compared on the
/// tuple alone, with the original text kept for display.
#[derive(Debug, Clone)]
pub struct Version {
    n1: u32,
    n2: u32,
    n3: u32,
    n4: u32,
    repr: String,
}

impl PartialEq for Version {
    /// Versions are equal iff their number tuples are, whatever their text.
    fn eq(&self, other: &Self) -> (r: bool) {
        self.n1 == other.n1 && self.n2 == other.n2 && self.n3 == other.n3 && self.n4
            == other.n4
    }
}

impl Eq for Version {

}

impl vstd::std_specs::cmp::PartialEqSpecImpl for Version {
    open spec fn obeys_eq_spec() -> bool {
        true
    }

    open spec fn eq_spec(&self, other: &Self) -> bool {
        self.spec_tuple() == other.spec_tuple()
    }
}

/// Lexicographic order on version tuples.
pub open spec fn version_tuple_lt(a: (u32, u32, u32, u32), b: (u32, u32, u32, u32)) -> bool {
    if a.0 != b.0 {
        a.0 < b.0
    } else if a.1 != b.1 {
        a.1 < b.1
    } else if a.2 != b.2 {
        a.2 < b.2
    } else {
        a.3 < b.3
    }
}

impl PartialOrd for Version {
    /// Versions order by their number tuples, component-wise, whatever their
    /// text.
    fn partial_cmp(&self, other: &Self) -> (r: Option<core::cmp::Ordering>) {
        if self.n1 != other.n1 {
            Some(
                if self.n1 < other.n1 {
                    core::cmp::Ordering::Less
                } else {
                    core::cmp::Ordering::Greater
                },
            )
        } else if self.n2 != other.n2 {
            Some(
                if self.n2 < other.n2 {
                    core::cmp::Ordering::Less
                } else {
                    core::cmp::Ordering::Greater
                },
            )
        } else if self.n3 != other.n3 {
            Some(
                if self.n3 < other.n3 {
                    core::cmp::Ordering::Less
                } else {
                    core::cmp::Ordering::Greater
                },
            )
        } else if self.n4 != other.n4 {
            Some(
                if self.n4 < other.n4 {
                    core::cmp::Ordering::Less
                } else {
                    core::cmp::Ordering::Greater
                },
            )
        } else {
            Some(core::cmp::Ordering::Equal)
        }
    }
}

impl vstd::std_specs::cmp::PartialOrdSpecImpl for Version {
    open spec fn obeys_partial_cmp_spec() -> bool {
        true
    }

    open spec fn partial_cmp_spec(&self, other: &Self) -> Option<core::cmp::Ordering> {
        if version_tuple_lt(self.spec_tuple(), other.spec_tuple()) {
            Some(core::cmp::Ordering::Less)
        } else if version_tuple_lt(other.spec_tuple(), self.spec_tuple()) {
            Some(core::cmp::Ordering::Greater)
        } else {
            Some(core::cmp::Ordering::Equal)
        }
    }
}

impl Default for Version {
    /// The default version is `0.0.0.0`.
    fn default() -> (r: Self)
        ensures
            r.spec_tuple() == (0u32, 0u32, 0u32, 0u32),
            r.spec_str() == version_repr(0, 0, 0, 0),
    {
        Version::new(0, 0, 0, 0)
    }
}

impl Version {
    /// The version's number tuple, in spec land.
    pub closed spec fn spec_tuple(&self) -> (u32, u32, u32, u32) {
        (self.n1, self.n2, self.n3, self.n4)
    }

    /// The version's display text, in spec land.
    pub closed spec fn spec_str(&self) -> Seq<char> {
        self.repr@
    }

    /// Build a version from its four components; the display text is the
    /// canonical `a.b.c.d` form.
    pub fn new(n1: u32, n2: u32, n3: u32, n4: u32) -> (r: Self)
        ensures
            r.spec_tuple() == (n1, n2, n3, n4),
            r.spec_str() == version_repr(n1, n2, n3, n4),
    {
        let mut out: Vec<char> = Vec::new();
        push_dec(n1, &mut out);
        out.push('.');
        push_dec(n2, &mut out);
        out.push('.');
        push_dec(n3, &mut out);
        out.push('.');
        push_dec(n4, &mut out);
        proof {
            assert(out@ =~= version_repr(n1, n2, n3, n4));
        }
        Version { n1, n2, n3, n4, repr: chars_to_string(out) }
    }

    /// Build a version from a tuple of its four components.
    pub fn new_from_tuple(tuple: (u32, u32, u32, u32)) -> (r: Self)
        ensures
            r.spec_tuple() == tuple,
            r.spec_str() == version_repr(tuple.0, tuple.1, tuple.2, tuple.3),
    {
        Self::new(tuple.0, tuple.1, tuple.2, tuple.3)
    }

    /// The version's number tuple.
    pub fn tuple(&self) -> (r: (u32, u32, u32, u32))
        ensures
            r == self.spec_tuple(),
    {
        (self.n1, self.n2, self.n3, self.n4)
    }

    /// The version's display text.
    pub fn str(&self) -> (r: &String)
        ensures
            r@ == self.spec_str(),
    {
        &self.repr
    }

    /// The version's display text, consuming the version.
    pub fn into_string(self) -> (r: String)
        ensures
            r@ == self.spec_str(),
    {
        self.repr
    }

    /// Parse the 4-component number tuple of a version string: exactly four
    /// dot-separated segments, each a decimal number.
    pub fn parse(s: &str) -> (r: Result<(u32, u32, u32, u32), ParseVersionError>)
        ensures
            ({
                let segs = split_on(s@, '.');
                &&& (segs.len() != 4 ==> r == Err::<(u32, u32, u32, u32), ParseVersionError>(
                    ParseVersionError::BadSegmentLength(segs.len() as usize),
                ))
                &&& (r matches Ok(v) <==> (segs.len() == 4 && seg_ok(segs[0]) && seg_ok(segs[1])
                    && seg_ok(segs[2]) && seg_ok(segs[3])))
                &&& (r matches Ok(v) ==> v.0 as nat == seg_val(segs[0]) && v.1 as nat == seg_val(
                    segs[1],
                ) && v.2 as nat == seg_val(segs[2]) && v.3 as nat == seg_val(segs[3]))
                &&& (segs.len() == 4 && !seg_ok(segs[0]) ==> r == Err::<
                    (u32, u32, u32, u32),
                    ParseVersionError,
                >(ParseVersionError::ParseIntError(seg_err(segs[0]))))
                &&& (segs.len() == 4 && seg_ok(segs[0]) && !seg_ok(segs[1]) ==> r == Err::<
                    (u32, u32, u32, u32),
                    ParseVersionError,
                >(ParseVersionError::ParseIntError(seg_err(segs[1]))))
                &&& (segs.len() == 4 && seg_ok(segs[0]) && seg_ok(segs[1]) && !seg_ok(segs[2])
                    ==> r == Err::<(u32, u32, u32, u32), ParseVersionError>(
                    ParseVersionError::ParseIntError(seg_err(segs[2])),
                ))
                &&& (segs.len() == 4 && seg_ok(segs[0]) && seg_ok(segs[1]) && seg_ok(segs[2])
                    && !seg_ok(segs[3]) ==> r == Err::<(u32, u32, u32, u32), ParseVersionError>(
                    ParseVersionError::ParseIntError(seg_err(segs[3])),
                ))
            }),
    {
        let parts = split_char(s, '.');
        let ghost segs = split_on(s@, '.');
        proof {
            assert(segs.len() == parts@.len());
            assert(forall|i: int|
                0 <= i < parts@.len() ==> #[trigger] parts@[i]@ == segs[i]) by {
                assert(forall|i: int|
                    0 <= i < parts@.len() ==> parts@.map_values(|p: String| p@)[i]
                        == #[trigger] parts@[i]@);
            }
        }
        if parts.len() != 4 {
            return Err(ParseVersionError::BadSegmentLength(parts.len()));
        }
        let v0 = match Self::parse_segment(&parts, 0) {
            Ok(v) => v,
            Err(e) => {
                return Err(e);
            },
        };
        let v1 = match Self::parse_segment(&parts, 1) {
            Ok(v) => v,
            Err(e) => {
                return Err(e);
            },
        };
        let v2 = match Self::parse_segment(&parts, 2) {
            Ok(v) => v,
            Err(e) => {
                return Err(e);
            },
        };
        let v3 = match Self::parse_segment(&parts, 3) {
            Ok(v) => v,
            Err(e) => {
                return Err(e);
            },
        };
        Ok((v0, v1, v2, v3))
    }

    /// Parse one segment of a version string.
    fn parse_segment(parts: &Vec<String>, i: usize) -> (r: Result<u32, ParseVersionError>)
        requires
            i < parts@.len(),
        ensures
            (r matches Ok(v) <==> seg_ok(parts@[i as int]@)),
            (r matches Ok(v) ==> v as nat == seg_val(parts@[i as int]@)),
            (r matches Err(e) ==> e == ParseVersionError::ParseIntError(
                seg_err(parts@[i as int]@),
            )),
    {
        match parse_u32(parts[i].as_str()) {
            Ok(v) => Ok(v),
            Err(e) => Err(ParseVersionError::ParseIntError(e)),
        }
    }

    /// Parse a version from text; on success the text is kept as the display
    /// form.
    pub fn new_from_str(s: &str) -> (r: Result<Self, ParseVersionError>)
        ensures
            (r matches Ok(v) ==> v.spec_str() == s@ && Version::parse_spec_ok(s@, v.spec_tuple())),
            (r matches Ok(v) <==> Version::parses(s@)),
            (r matches Err(e) ==> Version::parse_spec_err(s@, e)),
    {
        match Self::parse(s) {
            Ok(t) => Ok(Version {
                n1: t.0,
                n2: t.1,
                n3: t.2,
                n4: t.3,
                repr: String::from_str(s),
            }),
            Err(e) => Err(e),
        }
    }

    /// Parse a version from owned text; on success the text is kept as the
    /// display form.
    pub fn new_from_string(s: String) -> (r: Result<Self, ParseVersionError>)
        ensures
            (r matches Ok(v) ==> v.spec_str() == s@ && Version::parse_spec_ok(s@, v.spec_tuple())),
            (r matches Ok(v) <==> Version::parses(s@)),
            (r matches Err(e) ==> Version::parse_spec_err(s@, e)),
    {
        match Self::parse(s.as_str()) {
            Ok(t) => Ok(Version { n1: t.0, n2: t.1, n3: t.2, n4: t.3, repr: s }),
            Err(e) => Err(e),
        }
    }

    /// The string has exactly four dot-separated segments, each a number that
    /// fits.
    pub open spec fn parses(s: Seq<char>) -> bool {
        let segs = split_on(s, '.');
        segs.len() == 4 && seg_ok(segs[0]) && seg_ok(segs[1]) && seg_ok(segs[2]) && seg_ok(
            segs[3],
        )
    }

    /// The tuple a parsable version string denotes.
    pub open spec fn parse_spec_ok(s: Seq<char>, t: (u32, u32, u32, u32)) -> bool {
        let segs = split_on(s, '.');
        &&& t.0 as nat == seg_val(segs[0])
        &&& t.1 as nat == seg_val(segs[1])
        &&& t.2 as nat == seg_val(segs[2])
        &&& t.3 as nat == seg_val(segs[3])
    }

    /// The error an unparsable version string denotes: a segment count other
    /// than four, else the error of the first bad segment.
    pub open spec fn parse_spec_err(s: Seq<char>, e: ParseVersionError) -> bool {
        let segs = split_on(s, '.');
        if segs.len() != 4 {
            e == ParseVersionError::BadSegmentLength(segs.len() as usize)
        } else if !seg_ok(segs[0]) {
            e == ParseVersionError::ParseIntError(seg_err(segs[0]))
        } else if !seg_ok(segs[1]) {
            e == ParseVersionError::ParseIntError(seg_err(segs[1]))
        } else if !seg_ok(segs[2]) {
            e == ParseVersionError::ParseIntError(seg_err(segs[2]))
        } else {
            e == ParseVersionError::ParseIntError(seg_err(segs[3]))
        }
    }
}

} // verus!
