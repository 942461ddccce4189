//! Numbers, held as the text that stands for them.

use vstd::prelude::*;

verus! {

/// The error type of `serde_json`, carried through as it came: nothing is
/// known of what it holds.
#[verifier::external_type_specification]
#[verifier::external_body]
pub struct ExJsonError(serde_json::Error);

/// The canonical text of the number that `text` spells, or `None` where
/// `text` is not a numeric literal.
///
/// This names what `serde_json` computes: `text` parsed as a
/// `serde_json::Number`, and that number written out again by its `Display`
/// impl.
pub uninterp spec fn number_text(text: Seq<char>) -> Option<Seq<char>>;

/// Reads `text` with `serde_json::from_str` as a `serde_json::Number` and
/// renders the number with its `Display` impl.
///
/// Trusted: the result is a function of `text` alone, named `number_text`;
/// the error is whatever `serde_json::from_str` returned.
#[verifier::external_body]
fn render_number(text: &str) -> (rendered: Result<String, serde_json::Error>)
    ensures
        number_text(text@) == match rendered {
            Ok(canonical) => Some(canonical@),
            Err(_) => None,
        },
{
    match serde_json::from_str::<serde_json::Number>(text) {
        Ok(number) => Ok(number.to_string()),
        Err(error) => Err(error),
    }
}

/// A number, integer or floating point.
///
/// Its view is its canonical decimal text.
#[derive(Debug, PartialEq, Eq)]
pub struct Number {
    text: String,
}

impl Number {
    #[verifier::type_invariant]
    spec fn inv(&self) -> bool {
        exists|literal: Seq<char>| number_text(literal) == Some(self.text@)
    }

    /// The canonical text of the number.
    pub closed spec fn view(&self) -> Seq<char> {
        self.text@
    }

    /// The number that the numeric literal `literal` spells; `None` where
    /// `literal` is not a numeric literal.
    pub fn parse(literal: &str) -> (number: Option<Number>)
        ensures
            number_text(literal@) == match number {
                Some(n) => Some(n@),
                None => None,
            },
    {
        match render_number(literal) {
            Ok(text) => Some(Number { text }),
            Err(_) => None,
        }
    }

    /// The canonical text of the number: the text that some numeric literal
    /// was brought to.
    pub fn as_str(&self) -> (text: &str)
        ensures
            text@ == self@,
            exists|literal: Seq<char>| number_text(literal) == Some(text@),
    {
        proof {
            use_type_invariant(self);
        }
        self.text.as_str()
    }
}

impl Clone for Number {
    fn clone(&self) -> (copy: Self)
        ensures
            copy@ == self@,
    {
        proof {
            use_type_invariant(self);
        }
        Number { text: self.text.clone() }
    }
}

} // verus!
