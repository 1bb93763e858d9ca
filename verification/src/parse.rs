//! Parsing cvar overrides: single strings of the form `path=value`.

use crate::document::{parse_value, parsed_value, value_clone};
use crate::path::{find_char, lemma_find_char_unique};
use toml_edit::{TomlError, Value};
use vstd::prelude::*;
use vstd::string::*;

verus! {

/// A partially parsed cvar override. It is in the correct format, but it is
/// not known yet whether its path names a cvar and whether its value is one
/// of the cvar's type.
#[derive(Debug)]
pub struct CVarOverride(pub(crate) String, pub(crate) Value);

/// Errors that can occur parsing a [`CVarOverride`].
#[derive(Debug, Clone, Copy, PartialEq, Eq, Structural)]
#[non_exhaustive]
pub enum CVarOverrideParseError {
    /// The override is invalid as the left side is not a path.
    InvalidPath,
    /// The override is invalid as the right side is not valid TOML.
    InvalidToml,
    /// The override is invalid as it doesn't even look like an override
    /// (`left=right`).
    DoesntLookLikeAnOverride,
}

impl CVarOverrideParseError {
    /// What the error says.
    pub open spec fn message(&self) -> Seq<char> {
        match self {
            CVarOverrideParseError::InvalidPath =>
                "Not a valid override, a CVar override must have a CVar path (a.b.c) on the left."@,
            CVarOverrideParseError::InvalidToml =>
                "Not a valid override, a CVar override must have TOML on the right."@,
            CVarOverrideParseError::DoesntLookLikeAnOverride =>
                "Not a valid override, a CVar override must be of form `left=right`"@,
        }
    }

    /// The error as a message for the user.
    pub fn to_string(&self) -> (text: String)
        ensures
            text@ == self.message(),
    {
        match self {
            CVarOverrideParseError::InvalidPath =>
                "Not a valid override, a CVar override must have a CVar path (a.b.c) on the left.".to_owned(),
            CVarOverrideParseError::InvalidToml =>
                "Not a valid override, a CVar override must have TOML on the right.".to_owned(),
            CVarOverrideParseError::DoesntLookLikeAnOverride =>
                "Not a valid override, a CVar override must be of form `left=right`".to_owned(),
        }
    }
}

/// The override that the path `left` and what the parser made of the right
/// side give: the path as it stands with the value, where the right side is
/// one; `InvalidToml` where it is none.
pub open spec fn override_of(left: Seq<char>, parsed: Result<Value, TomlError>) -> Result<
    (Seq<char>, Value),
    CVarOverrideParseError,
> {
    match parsed {
        Ok(value) => Ok((left, value)),
        Err(_) => Err(CVarOverrideParseError::InvalidToml),
    }
}

/// What parsing `text` as an override gives: the text before the first `=`
/// as the path, as it stands, and the text after it parsed as one TOML value.
pub open spec fn parsed_override(text: Seq<char>) -> Result<
    (Seq<char>, Value),
    CVarOverrideParseError,
> {
    let eq = find_char(text, '=');
    if 0 <= eq < text.len() {
        override_of(text.take(eq), parsed_value(text.skip(eq + 1)))
    } else {
        Err(CVarOverrideParseError::DoesntLookLikeAnOverride)
    }
}

/// Splits `text` at its first `=`.
pub fn split_once_eq(text: &str) -> (r: Option<(&str, &str)>)
    ensures
        match r {
            Some((left, right)) => {
                let eq = find_char(text@, '=');
                &&& 0 <= eq < text@.len()
                &&& left@ == text@.take(eq)
                &&& right@ == text@.skip(eq + 1)
            },
            None => find_char(text@, '=') == text@.len(),
        },
{
    let n: usize = text.unicode_len();
    let mut i: usize = 0;
    while i < n
        invariant
            n == text@.len(),
            0 <= i <= n,
            forall|j: int| 0 <= j < i ==> text@[j] != '=',
        decreases n - i,
    {
        if text.get_char(i) == '=' {
            proof {
                lemma_find_char_unique(text@, '=', i as int);
            }
            let left = text.substring_char(0, i);
            let right = text.substring_char(i + 1, n);
            proof {
                assert(text@.subrange(0, i as int) =~= text@.take(i as int));
                assert(text@.subrange(i + 1, n as int) =~= text@.skip(i + 1));
            }
            return Some((left, right));
        }
        i = i + 1;
    }
    proof {
        lemma_find_char_unique(text@, '=', n as int);
    }
    None
}

impl CVarOverride {
    /// The path of the override.
    pub closed spec fn path_spec(&self) -> Seq<char> {
        self.0@
    }

    /// The value of the override.
    pub closed spec fn value_spec(&self) -> Value {
        self.1
    }

    /// The path of the cvar that the override sets, as it was written.
    pub fn path(&self) -> (path: &str)
        ensures
            path@ == self.path_spec(),
    {
        self.0.as_str()
    }

    /// The value that the override sets the cvar to.
    pub fn value(&self) -> (value: &Value)
        ensures
            *value == self.value_spec(),
    {
        &self.1
    }

    /// A copy of the override.
    pub fn duplicate(&self) -> (copy: CVarOverride)
        ensures
            copy.path_spec() == self.path_spec(),
            copy.value_spec() == self.value_spec(),
    {
        CVarOverride(self.0.clone(), value_clone(&self.1))
    }

    /// Makes an override of the path `left` and of what the parser made of
    /// the right side of the override.
    pub fn from_parsed(left: &str, parsed: Result<Value, TomlError>) -> (r: Result<
        CVarOverride,
        CVarOverrideParseError,
    >)
        ensures
            match r {
                Ok(made) => override_of(left@, parsed) == Ok::<
                    (Seq<char>, Value),
                    CVarOverrideParseError,
                >((made.path_spec(), made.value_spec())),
                Err(e) => override_of(left@, parsed) == Err::<
                    (Seq<char>, Value),
                    CVarOverrideParseError,
                >(e),
            },
    {
        match parsed {
            Ok(value) => Ok(CVarOverride(left.to_owned(), value)),
            Err(_) => Err(CVarOverrideParseError::InvalidToml),
        }
    }

    /// Parses an override of the form `path=value`.
    ///
    /// The text is split at the first `=`. The left side is taken as the
    /// path as it stands; the right side must be one TOML value.
    pub fn try_from(value: &str) -> (r: Result<CVarOverride, CVarOverrideParseError>)
        ensures
            match r {
                Ok(parsed) => parsed_override(value@) == Ok::<
                    (Seq<char>, Value),
                    CVarOverrideParseError,
                >((parsed.path_spec(), parsed.value_spec())),
                Err(e) => parsed_override(value@) == Err::<
                    (Seq<char>, Value),
                    CVarOverrideParseError,
                >(e),
            },
    {
        let (left, right) = match split_once_eq(value) {
            Some(sides) => sides,
            None => {
                return Err(CVarOverrideParseError::DoesntLookLikeAnOverride);
            },
        };
        CVarOverride::from_parsed(left, parse_value(right))
    }
}

impl core::str::FromStr for CVarOverride {
    type Err = CVarOverrideParseError;

    /// Parses an override of the form `path=value`. See
    /// [`CVarOverride::try_from`].
    fn from_str(s: &str) -> (r: Result<CVarOverride, CVarOverrideParseError>)
        ensures
            match r {
                Ok(parsed) => parsed_override(s@) == Ok::<
                    (Seq<char>, Value),
                    CVarOverrideParseError,
                >((parsed.path_spec(), parsed.value_spec())),
                Err(e) => parsed_override(s@) == Err::<(Seq<char>, Value), CVarOverrideParseError>(
                    e,
                ),
            },
    {
        CVarOverride::try_from(s)
    }
}

} // verus!
