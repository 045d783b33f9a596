//! Quotes for the morning greeting.

use vstd::prelude::*;
use vstd::string::StringExecFns;

verus! {

/// A quote as the quote service hands it out.
#[derive(Debug, PartialEq, Eq)]
pub struct KanyeQuote {
    pub quote: String,
}

/// The text of the greeting that carries `quote`.
pub open spec fn greeting_text(quote: Seq<char>) -> Seq<char> {
    "Good morning! Kanye says: "@ + quote
}

impl KanyeQuote {
    /// The morning greeting that carries this quote.
    pub fn greeting(&self) -> (text: String)
        ensures
            text@ == greeting_text(self.quote@),
    {
        let mut text = String::from_str("Good morning! Kanye says: ");
        text.append(self.quote.as_str());
        text
    }
}

} // verus!
