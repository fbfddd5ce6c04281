//! Reading the total supply out of the answer to a query of the global state.

use crate::primitives::Digest;
use crate::text::{decimal, decimal_text};
use crate::u512::U512;
use vstd::prelude::*;

verus! {

/// What the global state holds under a key.
#[derive(Debug)]
pub enum StoredValue {
    /// A value of the smart contract language: the amount that it stands for, or why it stands for
    /// none.
    CLValue(Result<U512, String>),
    /// Anything else.
    Other,
}

/// The answer to a query of the global state.
#[derive(Debug)]
pub enum QueryResult {
    /// The value was found.
    Success {
        /// The value.
        value: StoredValue,
    },
    /// There is no such value.
    ValueNotFound(String),
    /// The path leads back to itself.
    CircularReference(String),
    /// The path is too deep.
    DepthLimit {
        /// The depth that was reached.
        depth: u64,
    },
    /// There is no such state.
    RootNotFound,
}

/// Why the total supply is not known.
#[derive(Debug)]
pub enum QueryError {
    /// The mint's record of it could not be read.
    Mint(String),
    /// There is no state with this root.
    RootNotFound(Digest),
}

impl QueryError {
    /// The error holds this text.
    pub open spec fn says(&self, text: Seq<char>) -> bool {
        self matches QueryError::Mint(message) && message@ == text
    }
}

/// The text in round brackets behind a name.
pub open spec fn named(name: Seq<char>, text: Seq<char>) -> Seq<char> {
    name + "("@ + text + ")"@
}

fn named_text(name: &str, text: &str) -> (r: String)
    ensures
        r@ == named(name@, text@),
{
    let mut out: String = name.to_owned();
    out.append("(");
    out.append(text);
    out.append(")");
    out
}

/// The total supply in the state with the given root, as the answer to a query for it says.
pub fn total_supply(answer: QueryResult, state_hash: Digest) -> (r: Result<U512, QueryError>)
    ensures
        match answer {
            QueryResult::Success { value } => match value {
                StoredValue::CLValue(Ok(amount)) => r == Ok::<U512, QueryError>(amount),
                StoredValue::CLValue(Err(e)) => r is Err && r->Err_0.says(
                    "CLValue not a U512: "@ + e@,
                ),
                StoredValue::Other => r is Err && r->Err_0.says("Value not a CLValue"@),
            },
            QueryResult::ValueNotFound(s) => r is Err && r->Err_0.says(
                named("ValueNotFound"@, s@),
            ),
            QueryResult::CircularReference(s) => r is Err && r->Err_0.says(
                named("CircularReference"@, s@),
            ),
            QueryResult::DepthLimit { depth } => r is Err && r->Err_0.says(
                named("DepthLimit"@, decimal(depth as nat)),
            ),
            QueryResult::RootNotFound => r == Err::<U512, QueryError>(
                QueryError::RootNotFound(state_hash),
            ),
        },
        r matches Err(QueryError::Mint(message)) ==> match answer {
            QueryResult::Success { value: StoredValue::CLValue(Err(e)) } => message@
                == "CLValue not a U512: "@ + e@,
            QueryResult::Success { value: StoredValue::Other } => message@
                == "Value not a CLValue"@,
            QueryResult::ValueNotFound(s) => message@ == "ValueNotFound"@ + "("@ + s@ + ")"@,
            QueryResult::CircularReference(s) => message@ == "CircularReference"@ + "("@ + s@
                + ")"@,
            QueryResult::DepthLimit { depth } => message@ == "DepthLimit"@ + "("@ + decimal(
                depth as nat,
            ) + ")"@,
            _ => false,
        },
        r is Err && !(r->Err_0 is Mint) ==> answer is RootNotFound,
{
    match answer {
        QueryResult::Success { value } => match value {
            StoredValue::CLValue(Ok(amount)) => Ok(amount),
            StoredValue::CLValue(Err(e)) => {
                let mut text: String = "CLValue not a U512: ".to_owned();
                text.append(e.as_str());
                Err(QueryError::Mint(text))
            },
            StoredValue::Other => Err(QueryError::Mint("Value not a CLValue".to_owned())),
        },
        QueryResult::ValueNotFound(s) => Err(
            QueryError::Mint(named_text("ValueNotFound", s.as_str())),
        ),
        QueryResult::CircularReference(s) => Err(
            QueryError::Mint(named_text("CircularReference", s.as_str())),
        ),
        QueryResult::DepthLimit { depth } => Err(
            QueryError::Mint(named_text("DepthLimit", decimal_text(depth).as_str())),
        ),
        QueryResult::RootNotFound => Err(QueryError::RootNotFound(state_hash)),
    }
}

} // verus!
