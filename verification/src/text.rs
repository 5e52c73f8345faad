use vstd::prelude::*;

verus! {

/// A character on which a mod name is split into parts.
pub open spec fn separator_char(c: char) -> bool {
    c == ' ' || c == '[' || c == ']'
}

/// An ASCII decimal digit.
pub open spec fn ascii_digit(c: char) -> bool {
    '0' <= c && c <= '9'
}

/// A character that survives the safe-name filter: ASCII alphanumeric or one
/// of `. - _`.
pub open spec fn safe_kept_char(c: char) -> bool {
    ascii_digit(c) || crate::ascii_letter(c) || c == '.' || c == '-' || c == '_'
}

/// The character with a lowercase ASCII letter mapped to its uppercase form;
/// every other character is unchanged.
pub open spec fn upper_first_char(c: char) -> char {
    if 'a' <= c && c <= 'z' {
        (((c as u32) - 32) as u8) as char
    } else {
        c
    }
}

/// The safe counterpart of a name: split on separators, drop every character
/// that is not kept, uppercase the first kept character of each part, and
/// concatenate. `part_start` says whether the next kept character opens a
/// part.
pub open spec fn safe_name_seq(s: Seq<char>, part_start: bool) -> Seq<char>
    decreases s.len(),
{
    if s.len() == 0 {
        Seq::empty()
    } else if separator_char(s[0]) {
        safe_name_seq(s.drop_first(), true)
    } else if safe_kept_char(s[0]) {
        seq![if part_start { upper_first_char(s[0]) } else { s[0] }] + safe_name_seq(
            s.drop_first(),
            false,
        )
    } else {
        safe_name_seq(s.drop_first(), part_start)
    }
}

/// Strict lexicographic order on character sequences, by code point; the
/// order `String` keys sort in.
pub open spec fn str_lt(a: Seq<char>, b: Seq<char>) -> bool
    decreases a.len(),
{
    if b.len() == 0 {
        false
    } else if a.len() == 0 {
        true
    } else if a[0] != b[0] {
        a[0] < b[0]
    } else {
        str_lt(a.drop_first(), b.drop_first())
    }
}

/// Exactly one of `a < b`, `a == b`, `b < a` holds.
pub proof fn lemma_str_lt_trichotomy(a: Seq<char>, b: Seq<char>)
    ensures
        str_lt(a, b) || a == b || str_lt(b, a),
        str_lt(a, b) ==> a != b && !str_lt(b, a),
        a == b ==> !str_lt(a, b) && !str_lt(b, a),
    decreases a.len(),
{
    if a.len() != 0 && b.len() != 0 && a[0] == b[0] {
        lemma_str_lt_trichotomy(a.drop_first(), b.drop_first());
        if a.drop_first() == b.drop_first() {
            assert forall|k: int| 0 <= k < a.len() implies a[k] == b[k] by {
                if k > 0 {
                    assert(a[k] == a.drop_first()[k - 1]);
                    assert(b[k] == b.drop_first()[k - 1]);
                }
            }
            assert(a =~= b);
        }
        if a == b {
            assert(a.drop_first() =~= b.drop_first());
        }
    } else if a == b {
        assert(a.len() == b.len());
    }
}

/// Lexicographic order is transitive.
pub proof fn lemma_str_lt_trans(a: Seq<char>, b: Seq<char>, c: Seq<char>)
    requires
        str_lt(a, b),
        str_lt(b, c),
    ensures
        str_lt(a, c),
    decreases a.len(),
{
    if a.len() != 0 && c.len() != 0 {
        if b.len() == 0 {
            assert(false);
        } else {
            if a[0] == b[0] && b[0] == c[0] {
                lemma_str_lt_trans(a.drop_first(), b.drop_first(), c.drop_first());
            }
        }
    }
}

/// With equal prefixes of length `i`, the order is decided by the suffixes.
pub proof fn lemma_str_lt_common_prefix(a: Seq<char>, b: Seq<char>, i: int)
    requires
        0 <= i <= a.len(),
        i <= b.len(),
        forall|j: int| 0 <= j < i ==> a[j] == b[j],
    ensures
        str_lt(a, b) == str_lt(a.skip(i), b.skip(i)),
    decreases i,
{
    if i > 0 {
        assert(a.len() > 0 && b.len() > 0 && a[0] == b[0]);
        assert forall|j: int| 0 <= j < i - 1 implies a.drop_first()[j] == b.drop_first()[j] by {
            assert(a.drop_first()[j] == a[j + 1]);
            assert(b.drop_first()[j] == b[j + 1]);
        }
        lemma_str_lt_common_prefix(a.drop_first(), b.drop_first(), i - 1);
        assert(a.drop_first().skip(i - 1) =~= a.skip(i));
        assert(b.drop_first().skip(i - 1) =~= b.skip(i));
    } else {
        assert(a.skip(0) =~= a);
        assert(b.skip(0) =~= b);
    }
}

/// Compare two strings in lexicographic order by character.
pub fn str_compare(a: &str, b: &str) -> (o: core::cmp::Ordering)
    ensures
        (o == core::cmp::Ordering::Less) == str_lt(a@, b@),
        (o == core::cmp::Ordering::Equal) == (a@ == b@),
        (o == core::cmp::Ordering::Greater) == str_lt(b@, a@),
{
    let an = a.unicode_len();
    let bn = b.unicode_len();
    let n = if an < bn {
        an
    } else {
        bn
    };
    let mut i: usize = 0;
    proof {
        lemma_str_lt_trichotomy(a@, b@);
    }
    while i < n
        invariant
            0 <= i <= n,
            an == a@.len(),
            bn == b@.len(),
            n == if an < bn {
                an
            } else {
                bn
            },
            forall|j: int| 0 <= j < i ==> a@[j] == b@[j],
        decreases n - i,
    {
        let ca = a.get_char(i);
        let cb = b.get_char(i);
        if ca != cb {
            proof {
                lemma_str_lt_common_prefix(a@, b@, i as int);
                lemma_str_lt_common_prefix(b@, a@, i as int);
                assert(a@.skip(i as int)[0] == a@[i as int]);
                assert(b@.skip(i as int)[0] == b@[i as int]);
                lemma_str_lt_trichotomy(a@, b@);
            }
            if ca < cb {
                return core::cmp::Ordering::Less;
            } else {
                return core::cmp::Ordering::Greater;
            }
        }
        i += 1;
    }
    proof {
        lemma_str_lt_common_prefix(a@, b@, n as int);
        lemma_str_lt_common_prefix(b@, a@, n as int);
        lemma_str_lt_trichotomy(a@, b@);
        if an == bn {
            assert(a@ =~= b@);
        } else if an < bn {
            assert(a@.skip(n as int).len() == 0);
            assert(b@.skip(n as int).len() > 0);
        } else {
            assert(b@.skip(n as int).len() == 0);
            assert(a@.skip(n as int).len() > 0);
        }
    }
    if an == bn {
        core::cmp::Ordering::Equal
    } else if an < bn {
        core::cmp::Ordering::Less
    } else {
        core::cmp::Ordering::Greater
    }
}

/// The segments of `s` between occurrences of `sep`: always at least one
/// segment, and one more segment for every occurrence of `sep`.
pub open spec fn split_on(s: Seq<char>, sep: char) -> Seq<Seq<char>>
    decreases s.len(),
{
    if s.len() == 0 {
        seq![Seq::empty()]
    } else if s[0] == sep {
        seq![Seq::<char>::empty()] + split_on(s.drop_first(), sep)
    } else {
        let rest = split_on(s.drop_first(), sep);
        seq![seq![s[0]] + rest[0]] + rest.drop_first()
    }
}

pub proof fn lemma_split_on_nonempty(s: Seq<char>, sep: char)
    ensures
        split_on(s, sep).len() >= 1,
    decreases s.len(),
{
    if s.len() != 0 {
        lemma_split_on_nonempty(s.drop_first(), sep);
    }
}

/// Split `s` on every occurrence of `sep`, keeping empty segments.
pub fn split_char(s: &str, sep: char) -> (parts: Vec<String>)
    ensures
        parts@.map_values(|p: String| p@) == split_on(s@, sep),
{
    let n = s.unicode_len();
    let mut parts: Vec<String> = Vec::new();
    let mut cur: Vec<char> = Vec::new();
    let mut i: usize = 0;
    proof {
        assert(s@.skip(0) =~= s@);
    }
    while i < n
        invariant
            0 <= i <= n,
            n == s@.len(),
            split_on(s@, sep) =~= parts@.map_values(|p: String| p@) + seq![cur@ + split_on(
                s@.skip(i as int),
                sep,
            )[0]] + split_on(s@.skip(i as int), sep).drop_first(),
        decreases n - i,
    {
        let ghost tail = s@.skip(i as int);
        let ghost pre_parts = parts@;
        let ghost pre_cur = cur@;
        proof {
            lemma_split_on_nonempty(s@.skip(i as int + 1), sep);
            assert(tail[0] == s@[i as int]);
            assert(tail.drop_first() =~= s@.skip(i as int + 1));
        }
        let c = s.get_char(i);
        if c == sep {
            let done = chars_to_string(cur);
            cur = Vec::new();
            parts.push(done);
            proof {
                let ghost rest = split_on(s@.skip(i as int + 1), sep);
                assert(split_on(tail, sep) == seq![Seq::<char>::empty()] + rest);
                assert(parts@.map_values(|p: String| p@) =~= pre_parts.map_values(
                    |p: String| p@,
                ) + seq![pre_cur]);
                assert(pre_cur + split_on(tail, sep)[0] =~= pre_cur);
                assert(cur@ + rest[0] =~= rest[0]);
                assert(split_on(tail, sep).drop_first() =~= rest);
                assert(rest =~= seq![rest[0]] + rest.drop_first());
                assert(split_on(s@, sep) =~= parts@.map_values(|p: String| p@) + seq![cur@
                    + rest[0]] + rest.drop_first());
            }
        } else {
            cur.push(c);
            proof {
                let ghost rest = split_on(s@.skip(i as int + 1), sep);
                assert(split_on(tail, sep) == seq![seq![tail[0]] + rest[0]]
                    + rest.drop_first());
                assert(split_on(tail, sep)[0] == seq![tail[0]] + rest[0]);
                assert(pre_cur + (seq![tail[0]] + rest[0]) =~= cur@ + rest[0]);
                assert(split_on(s@, sep) =~= parts@.map_values(|p: String| p@) + seq![cur@
                    + rest[0]] + rest.drop_first());
            }
        }
        i += 1;
    }
    proof {
        assert(s@.skip(n as int) =~= Seq::<char>::empty());
        assert(split_on(Seq::<char>::empty(), sep) == seq![Seq::<char>::empty()]);
        assert(cur@ + split_on(s@.skip(n as int), sep)[0] =~= cur@);
    }
    let ghost pre_parts = parts@;
    let ghost pre_cur = cur@;
    let done = chars_to_string(cur);
    parts.push(done);
    proof {
        assert(parts@.map_values(|p: String| p@) =~= pre_parts.map_values(|p: String| p@)
            + seq![pre_cur]);
        assert(parts@.map_values(|p: String| p@) =~= split_on(s@, sep));
    }
    parts
}

/// A character that ends a line of a mods file.
pub open spec fn line_break(c: char) -> bool {
    c == '\n' || c == '\r'
}

/// The segments of `s` between line breaks; always at least one segment.
pub open spec fn split_lines(s: Seq<char>) -> Seq<Seq<char>>
    decreases s.len(),
{
    if s.len() == 0 {
        seq![Seq::empty()]
    } else if line_break(s[0]) {
        seq![Seq::<char>::empty()] + split_lines(s.drop_first())
    } else {
        let rest = split_lines(s.drop_first());
        seq![seq![s[0]] + rest[0]] + rest.drop_first()
    }
}

pub proof fn lemma_split_lines_nonempty(s: Seq<char>)
    ensures
        split_lines(s).len() >= 1,
    decreases s.len(),
{
    if s.len() != 0 {
        lemma_split_lines_nonempty(s.drop_first());
    }
}

/// Split `s` at every line break, keeping empty segments.
pub fn split_line_strings(s: &str) -> (parts: Vec<String>)
    ensures
        parts@.map_values(|p: String| p@) == split_lines(s@),
{
    let n = s.unicode_len();
    let mut parts: Vec<String> = Vec::new();
    let mut cur: Vec<char> = Vec::new();
    let mut i: usize = 0;
    proof {
        assert(s@.skip(0) =~= s@);
    }
    while i < n
        invariant
            0 <= i <= n,
            n == s@.len(),
            split_lines(s@) =~= parts@.map_values(|p: String| p@) + seq![cur@ + split_lines(
                s@.skip(i as int),
            )[0]] + split_lines(s@.skip(i as int)).drop_first(),
        decreases n - i,
    {
        let ghost tail = s@.skip(i as int);
        let ghost pre_parts = parts@;
        let ghost pre_cur = cur@;
        proof {
            lemma_split_lines_nonempty(s@.skip(i as int + 1));
            assert(tail[0] == s@[i as int]);
            assert(tail.drop_first() =~= s@.skip(i as int + 1));
        }
        let c = s.get_char(i);
        if c == '\n' || c == '\r' {
            let done = chars_to_string(cur);
            cur = Vec::new();
            parts.push(done);
            proof {
                let ghost rest = split_lines(s@.skip(i as int + 1));
                assert(split_lines(tail) == seq![Seq::<char>::empty()] + rest);
                assert(parts@.map_values(|p: String| p@) =~= pre_parts.map_values(
                    |p: String| p@,
                ) + seq![pre_cur]);
                assert(pre_cur + split_lines(tail)[0] =~= pre_cur);
                assert(cur@ + rest[0] =~= rest[0]);
                assert(split_lines(tail).drop_first() =~= rest);
                assert(rest =~= seq![rest[0]] + rest.drop_first());
                assert(split_lines(s@) =~= parts@.map_values(|p: String| p@) + seq![cur@
                    + rest[0]] + rest.drop_first());
            }
        } else {
            cur.push(c);
            proof {
                let ghost rest = split_lines(s@.skip(i as int + 1));
                assert(split_lines(tail) == seq![seq![tail[0]] + rest[0]] + rest.drop_first());
                assert(split_lines(tail)[0] == seq![tail[0]] + rest[0]);
                assert(pre_cur + (seq![tail[0]] + rest[0]) =~= cur@ + rest[0]);
                assert(split_lines(s@) =~= parts@.map_values(|p: String| p@) + seq![cur@
                    + rest[0]] + rest.drop_first());
            }
        }
        i += 1;
    }
    proof {
        assert(s@.skip(n as int) =~= Seq::<char>::empty());
        assert(split_lines(Seq::<char>::empty()) == seq![Seq::<char>::empty()]);
        assert(cur@ + split_lines(s@.skip(n as int))[0] =~= cur@);
    }
    let ghost pre_parts = parts@;
    let ghost pre_cur = cur@;
    let done = chars_to_string(cur);
    parts.push(done);
    proof {
        assert(parts@.map_values(|p: String| p@) =~= pre_parts.map_values(|p: String| p@)
            + seq![pre_cur]);
        assert(parts@.map_values(|p: String| p@) =~= split_lines(s@));
    }
    parts
}

/// Relies on `FromIterator<char> for String`: collecting characters yields
/// the string made of exactly those characters.
#[verifier::external_body]
pub(crate) fn chars_to_string(v: Vec<char>) -> (r: String)
    ensures
        r@ == v@,
{
    v.into_iter().collect()
}

/// Test whether two strings hold the same characters.
pub fn str_eq(a: &str, b: &str) -> (r: bool)
    ensures
        r == (a@ == b@),
{
    let n = a.unicode_len();
    if n != b.unicode_len() {
        proof {
            assert(a@ != b@);
        }
        return false;
    }
    let mut i: usize = 0;
    while i < n
        invariant
            0 <= i <= n,
            n == a@.len(),
            n == b@.len(),
            forall|j: int| 0 <= j < i ==> a@[j] == b@[j],
        decreases n - i,
    {
        if a.get_char(i) != b.get_char(i) {
            return false;
        }
        i += 1;
    }
    proof {
        assert(a@ =~= b@);
    }
    true
}

/// True iff some string of `v` has exactly the characters `x`.
pub open spec fn seq_contains_str(v: Seq<String>, x: Seq<char>) -> bool {
    exists|i: int| 0 <= i < v.len() && #[trigger] v[i]@ == x
}

/// No two strings of `v` spell the same characters.
pub open spec fn strs_unique(v: Seq<String>) -> bool {
    forall|i: int, j: int| 0 <= i < j < v.len() ==> (#[trigger] v[i])@ != (#[trigger] v[j])@
}

/// The set of character sequences the strings of `v` spell.
pub open spec fn strs_set(v: Seq<String>) -> Set<Seq<char>> {
    Set::new(|x: Seq<char>| seq_contains_str(v, x))
}

/// Membership in a string sequence after a push.
pub proof fn lemma_seq_contains_push(v: Seq<String>, e: String, x: Seq<char>)
    ensures
        seq_contains_str(v.push(e), x) == (seq_contains_str(v, x) || x == e@),
{
    if seq_contains_str(v, x) {
        let i = choose|i: int| 0 <= i < v.len() && v[i]@ == x;
        assert(v.push(e)[i]@ == x);
    }
    if x == e@ {
        assert(v.push(e)[v.len() as int]@ == x);
    }
    if seq_contains_str(v.push(e), x) {
        let i = choose|i: int| 0 <= i < v.push(e).len() && v.push(e)[i]@ == x;
        if i < v.len() {
            assert(v[i]@ == x);
        }
    }
}

/// Membership in a string sequence after its last element is dropped.
pub proof fn lemma_seq_contains_drop_last(v: Seq<String>, x: Seq<char>)
    requires
        v.len() > 0,
    ensures
        seq_contains_str(v, x) == (seq_contains_str(v.drop_last(), x) || x == v.last()@),
{
    if seq_contains_str(v.drop_last(), x) {
        let i = choose|i: int| 0 <= i < v.drop_last().len() && v.drop_last()[i]@ == x;
        assert(v[i]@ == x);
    }
    if x == v.last()@ {
        assert(v[v.len() - 1]@ == x);
    }
    if seq_contains_str(v, x) {
        let i = choose|i: int| 0 <= i < v.len() && v[i]@ == x;
        if i < v.len() - 1 {
            assert(v.drop_last()[i]@ == x);
        }
    }
}

/// Test whether `v` holds a string equal to `x`.
pub fn vec_contains_str(v: &Vec<String>, x: &str) -> (r: bool)
    ensures
        r == seq_contains_str(v@, x@),
{
    let n = v.len();
    let mut i: usize = 0;
    while i < n
        invariant
            0 <= i <= n,
            n == v@.len(),
            forall|j: int| 0 <= j < i ==> #[trigger] v@[j]@ != x@,
        decreases n - i,
    {
        if str_eq(v[i].as_str(), x) {
            return true;
        }
        i += 1;
    }
    false
}

} // verus!
