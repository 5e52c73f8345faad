use vstd::prelude::*;

verus! {

use crate::text::str_eq;

/// The closed set of categories a mod may be tagged with, in declaration
/// order.
#[derive(Debug, Clone, Copy, PartialEq, Eq, Structural)]
pub enum Tag {
    Boss,
    Cosmetic,
    Expansion,
    Gameplay,
    Library,
    Utility,
}

/// The error of parsing a tag from text.
#[derive(Debug, Clone)]
pub enum ParseTagError {
    UnknownVariant(String),
}

/// The canonical name of a tag.
pub open spec fn tag_name(t: Tag) -> Seq<char> {
    match t {
        Tag::Boss => "Boss"@,
        Tag::Cosmetic => "Cosmetic"@,
        Tag::Expansion => "Expansion"@,
        Tag::Gameplay => "Gameplay"@,
        Tag::Library => "Library"@,
        Tag::Utility => "Utility"@,
    }
}

impl Tag {
    /// The canonical name of this tag.
    pub fn as_str(&self) -> (r: &'static str)
        ensures
            r@ == tag_name(*self),
    {
        match self {
            Tag::Boss => "Boss",
            Tag::Cosmetic => "Cosmetic",
            Tag::Expansion => "Expansion",
            Tag::Gameplay => "Gameplay",
            Tag::Library => "Library",
            Tag::Utility => "Utility",
        }
    }

    /// Parse a tag from its canonical name; any other text is rejected with
    /// the text itself.
    pub fn from_str(s: &str) -> (r: Result<Tag, ParseTagError>)
        ensures
            (exists|t: Tag| tag_name(t) == s@) ==> (r matches Ok(t) && tag_name(t) == s@),
            !(exists|t: Tag| tag_name(t) == s@) ==> (r matches Err(
                ParseTagError::UnknownVariant(m),
            ) && m@ == s@),
    {
        if str_eq(s, "Boss") {
            proof {
                assert(tag_name(Tag::Boss) == s@);
            }
            Ok(Tag::Boss)
        } else if str_eq(s, "Cosmetic") {
            proof {
                assert(tag_name(Tag::Cosmetic) == s@);
            }
            Ok(Tag::Cosmetic)
        } else if str_eq(s, "Expansion") {
            proof {
                assert(tag_name(Tag::Expansion) == s@);
            }
            Ok(Tag::Expansion)
        } else if str_eq(s, "Gameplay") {
            proof {
                assert(tag_name(Tag::Gameplay) == s@);
            }
            Ok(Tag::Gameplay)
        } else if str_eq(s, "Library") {
            proof {
                assert(tag_name(Tag::Library) == s@);
            }
            Ok(Tag::Library)
        } else if str_eq(s, "Utility") {
            proof {
                assert(tag_name(Tag::Utility) == s@);
            }
            Ok(Tag::Utility)
        } else {
            proof {
                assert(forall|t: Tag| tag_name(t) != s@) by {
                    assert forall|t: Tag| tag_name(t) != s@ by {
                        match t {
                            Tag::Boss => assert(tag_name(t) == "Boss"@),
                            Tag::Cosmetic => assert(tag_name(t) == "Cosmetic"@),
                            Tag::Expansion => assert(tag_name(t) == "Expansion"@),
                            Tag::Gameplay => assert(tag_name(t) == "Gameplay"@),
                            Tag::Library => assert(tag_name(t) == "Library"@),
                            Tag::Utility => assert(tag_name(t) == "Utility"@),
                        }
                    }
                }
            }
            Err(ParseTagError::UnknownVariant(String::from_str(s)))
        }
    }
}

} // verus!
