use vstd::prelude::*;

verus! {

/// Failure taxonomy of the generation layer.
///
/// `InvalidInput` covers everything the caller can fix: empty content, a
/// missing API key, an unsupported provider, malformed provider output.
/// `Upstream` carries a provider-reported failure (an error envelope or a
/// non-success HTTP status), prefixed with the provider's name.
#[derive(Debug, Clone, PartialEq, Eq)]
pub enum AiError {
    InvalidInput(String),
    Upstream(String),
}

/// Result alias used throughout the generation layer.
pub type AiResult<T> = Result<T, AiError>;

impl AiError {
    /// The human-readable message carried by either error kind.
    pub open spec fn spec_message(&self) -> Seq<char> {
        match self {
            AiError::InvalidInput(m) => m@,
            AiError::Upstream(m) => m@,
        }
    }

    pub fn message(&self) -> (r: String)
        ensures
            r@ == self.spec_message(),
    {
        match self {
            AiError::InvalidInput(m) => m.clone(),
            AiError::Upstream(m) => m.clone(),
        }
    }

    pub fn is_invalid_input(&self) -> (r: bool)
        ensures
            r == (self is InvalidInput),
    {
        match self {
            AiError::InvalidInput(_) => true,
            AiError::Upstream(_) => false,
        }
    }

    pub fn is_upstream(&self) -> (r: bool)
        ensures
            r == (self is Upstream),
    {
        match self {
            AiError::InvalidInput(_) => false,
            AiError::Upstream(_) => true,
        }
    }
}

} // verus!
