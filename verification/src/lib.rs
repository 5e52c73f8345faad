use vstd::prelude::*;

pub mod api_links;
pub mod changelog;
pub mod file_format;
pub mod file_def;
pub mod links;
pub mod mirror;
pub mod mod_info;
pub mod mod_links;
pub mod platform;
pub mod rebase;
pub mod tag;
pub mod text;
pub mod translate;
pub mod version;
pub mod xml_lists;

verus! {

use crate::text::{safe_name_seq, separator_char, safe_kept_char, upper_first_char,
    chars_to_string, split_lines, split_line_strings};

/// A character that may not appear after the first character of a mod name.
pub open spec fn forbidden_name_char(c: char) -> bool {
    c == '\\' || c == '/' || c == ':' || c == '*' || c == '?' || c == '<' || c == '>' || c == '"'
        || c == '|'
}

/// An ASCII letter, the only kind of character a mod name may start with.
pub open spec fn ascii_letter(c: char) -> bool {
    ('A' <= c && c <= 'Z') || ('a' <= c && c <= 'z')
}

/// A valid mod name starts with an ASCII letter and continues with at least
/// one more character, none of which may be a path / URL / XML metacharacter.
pub open spec fn valid_mod_name(s: Seq<char>) -> bool {
    &&& s.len() >= 2
    &&& ascii_letter(s[0])
    &&& forall|i: int| 1 <= i < s.len() ==> !forbidden_name_char(#[trigger] s[i])
}

/// Test if a string is a valid mod name: an ASCII letter followed by one or
/// more characters, none of which is one of `\ / : * ? < > " |`.
pub fn is_valid_mod_name(name: &str) -> (r: bool)
    ensures
        r == valid_mod_name(name@),
{
    let n = name.unicode_len();
    if n < 2 {
        return false;
    }
    let first = name.get_char(0);
    if !(('A' <= first && first <= 'Z') || ('a' <= first && first <= 'z')) {
        return false;
    }
    let mut i: usize = 1;
    while i < n
        invariant
            1 <= i <= n,
            n == name@.len(),
            n >= 2,
            ascii_letter(name@[0]),
            forall|j: int| 1 <= j < i ==> !forbidden_name_char(#[trigger] name@[j]),
        decreases n - i,
    {
        let c = name.get_char(i);
        if c == '\\' || c == '/' || c == ':' || c == '*' || c == '?' || c == '<' || c == '>'
            || c == '"' || c == '|' {
            return false;
        }
        i += 1;
    }
    true
}

/// True iff the URL string starts with scheme `http` or `https`.
pub open spec fn valid_file_url_seq(s: Seq<char>) -> bool {
    &&& s.len() >= 5
    &&& s[0] == 'h'
    &&& s[1] == 't'
    &&& s[2] == 't'
    &&& s[3] == 'p'
    &&& (s[4] == ':' || (s.len() >= 6 && s[4] == 's' && s[5] == ':'))
}

/// Test if a URL is fit for a download link: its scheme must be `http` or
/// `https`.
pub fn is_valid_file_url(url: &str) -> (r: bool)
    ensures
        r == valid_file_url_seq(url@),
{
    let n = url.unicode_len();
    if n < 5 {
        return false;
    }
    if !(url.get_char(0) == 'h' && url.get_char(1) == 't' && url.get_char(2) == 't'
        && url.get_char(3) == 'p') {
        return false;
    }
    let c4 = url.get_char(4);
    if c4 == ':' {
        return true;
    }
    n >= 6 && c4 == 's' && url.get_char(5) == ':'
}

/// Find a counterpart for a mod name that behaves well as a filesystem path,
/// a URL path and a piece of XML. Not promised to be unique.
///
/// The name is split on space, `[` and `]`; within each part every character
/// that is neither ASCII alphanumeric nor one of `. - _` is dropped; parts
/// left empty are dropped; the first character of each surviving part is
/// uppercased; the parts are joined with no separator.
pub fn get_safe_mod_name(name: &str) -> (r: String)
    ensures
        r@ == safe_name_seq(name@, true),
{
    let n = name.unicode_len();
    let mut out: Vec<char> = Vec::new();
    let mut part_start: bool = true;
    let mut i: usize = 0;
    proof {
        assert(name@.skip(0) =~= name@);
        assert(out@ + safe_name_seq(name@, true) =~= safe_name_seq(name@, true));
    }
    while i < n
        invariant
            0 <= i <= n,
            n == name@.len(),
            out@ + safe_name_seq(name@.skip(i as int), part_start) == safe_name_seq(name@, true),
        decreases n - i,
    {
        let c = name.get_char(i);
        let ghost pre_out = out@;
        let ghost pre_start = part_start;
        let ghost tail = name@.skip(i as int);
        proof {
            assert(tail[0] == name@[i as int]);
            assert(tail.drop_first() =~= name@.skip(i as int + 1));
        }
        if c == ' ' || c == '[' || c == ']' {
            part_start = true;
            proof {
                assert(safe_name_seq(tail, pre_start) == safe_name_seq(
                    name@.skip(i as int + 1),
                    true,
                ));
            }
        } else if ('0' <= c && c <= '9') || ('A' <= c && c <= 'Z') || ('a' <= c && c <= 'z')
            || c == '.' || c == '-' || c == '_' {
            let kept = if part_start && 'a' <= c && c <= 'z' {
                (((c as u32) - 32) as u8) as char
            } else {
                c
            };
            proof {
                assert(safe_kept_char(c));
                assert(kept == if pre_start {
                    upper_first_char(name@[i as int])
                } else {
                    name@[i as int]
                });
                assert(safe_name_seq(tail, pre_start) == seq![kept] + safe_name_seq(
                    name@.skip(i as int + 1),
                    false,
                ));
            }
            out.push(kept);
            part_start = false;
            proof {
                assert(out@ =~= pre_out + seq![kept]);
                assert(out@ + safe_name_seq(name@.skip(i as int + 1), false) =~= pre_out + (
                seq![kept] + safe_name_seq(name@.skip(i as int + 1), false)));
            }
        } else {
            proof {
                assert(!separator_char(c) && !safe_kept_char(c));
                assert(safe_name_seq(tail, pre_start) == safe_name_seq(
                    name@.skip(i as int + 1),
                    pre_start,
                ));
            }
        }
        i += 1;
    }
    proof {
        assert(name@.skip(n as int) =~= Seq::<char>::empty());
        assert(out@ == safe_name_seq(name@, true));
    }
    chars_to_string(out)
}

/// The lines of a mods file that name a mod: empty lines and lines opening
/// with `#` are dropped.
pub open spec fn kept_mod_lines(parts: Seq<Seq<char>>) -> Seq<Seq<char>>
    decreases parts.len(),
{
    if parts.len() == 0 {
        Seq::empty()
    } else {
        kept_mod_lines(parts.drop_last()) + (if parts.last().len() > 0 && parts.last()[0]
            != '#' {
            seq![parts.last()]
        } else {
            Seq::empty()
        })
    }
}

/// Parse the contents of a mods file: one mod name per line, with empty
/// lines and lines opening with `#` ignored.
pub fn parse_mods_list(s: &str) -> (r: Vec<String>)
    ensures
        r@.map_values(|m: String| m@) == kept_mod_lines(split_lines(s@)),
{
    let parts = split_line_strings(s);
    let ghost psv = split_lines(s@);
    proof {
        assert(parts@.len() == psv.len());
        assert forall|j: int| 0 <= j < parts@.len() implies (#[trigger] parts@[j])@ == psv[j] by {
            assert(parts@.map_values(|p: String| p@)[j] == parts@[j]@);
        }
        assert(psv.take(0) =~= Seq::<Seq<char>>::empty());
    }
    let n = parts.len();
    let mut out: Vec<String> = Vec::new();
    let mut i: usize = 0;
    while i < n
        invariant
            0 <= i <= n,
            n == parts@.len(),
            n == psv.len(),
            forall|j: int| 0 <= j < n ==> (#[trigger] parts@[j])@ == psv[j],
            out@.map_values(|m: String| m@) == kept_mod_lines(psv.take(i as int)),
        decreases n - i,
    {
        let ghost pre = out@;
        proof {
            assert(psv.take(i + 1).drop_last() =~= psv.take(i as int));
            assert(psv.take(i + 1).last() == psv[i as int]);
        }
        let line = &parts[i];
        let keep = if line.as_str().unicode_len() == 0 {
            false
        } else {
            line.as_str().get_char(0) != '#'
        };
        if keep {
            out.push(line.clone());
            proof {
                assert(out@.map_values(|m: String| m@) =~= pre.map_values(|m: String| m@)
                    + seq![psv[i as int]]);
            }
        } else {
            proof {
                assert(out@.map_values(|m: String| m@) =~= pre.map_values(|m: String| m@)
                    + Seq::<Seq<char>>::empty());
            }
        }
        i += 1;
    }
    proof {
        assert(psv.take(n as int) =~= psv);
    }
    out
}

} // verus!
