use vstd::prelude::*;

use crate::langserver::CheckProblem;

verus! {

/// One candidate completion returned by the engine.
pub struct Completion {
    /// The completed code.
    pub code: String,
}

/// How a completion request can fail.
pub enum CompletionError {
    /// The endpoint rate-limited the request; carries the candidates
    /// that had been gathered before the limit hit.
    RateLimit(Vec<Completion>),
    /// Any other engine-side failure, with its description.
    Engine(String),
}

/// One request to the completion engine.
pub struct CompletionQuery {
    /// The prompt text.
    pub input: String,
    /// How many candidates are asked for.
    pub num_comps: usize,
    /// How often the engine itself may retry internally.
    pub retries: usize,
    /// Whether the engine may fall back to the `any` type.
    pub fallback: bool,
    /// Problems that are tolerated when the engine checks candidates.
    pub problem_whitelist: Vec<CheckProblem>,
}

/// Builds a [`CompletionQuery`] field by field.
pub struct CompletionQueryBuilder {
    pub input: String,
    pub num_comps: usize,
    pub retries: usize,
    pub fallback: bool,
    pub problem_whitelist: Vec<CheckProblem>,
}

impl CompletionQueryBuilder {
    /// Starts a query for the given prompt: one candidate, no retries,
    /// no fallback, nothing whitelisted.
    pub fn new(input: String) -> (r: CompletionQueryBuilder)
        ensures
            r.input@ == input@,
            r.num_comps == 1,
            r.retries == 0,
            r.fallback == false,
            r.problem_whitelist@.len() == 0,
    {
        CompletionQueryBuilder {
            input,
            num_comps: 1,
            retries: 0,
            fallback: false,
            problem_whitelist: Vec::new(),
        }
    }

    /// Sets how many candidates are asked for.
    pub fn num_comps(self, num_comps: usize) -> (r: Self)
        ensures
            r == (CompletionQueryBuilder { num_comps, ..self }),
    {
        CompletionQueryBuilder { num_comps, ..self }
    }

    /// Sets the engine-internal retry count.
    pub fn retries(self, retries: usize) -> (r: Self)
        ensures
            r == (CompletionQueryBuilder { retries, ..self }),
    {
        CompletionQueryBuilder { retries, ..self }
    }

    /// Sets whether the engine may fall back to the `any` type.
    pub fn fallback(self, fallback: bool) -> (r: Self)
        ensures
            r == (CompletionQueryBuilder { fallback, ..self }),
    {
        CompletionQueryBuilder { fallback, ..self }
    }

    /// Sets the tolerated problems.
    pub fn problem_whitelist(self, problem_whitelist: Vec<CheckProblem>) -> (r: Self)
        ensures
            r == (CompletionQueryBuilder { problem_whitelist, ..self }),
    {
        CompletionQueryBuilder { problem_whitelist, ..self }
    }

    /// Finishes the query.
    pub fn build(self) -> (r: CompletionQuery)
        ensures
            r.input == self.input,
            r.num_comps == self.num_comps,
            r.retries == self.retries,
            r.fallback == self.fallback,
            r.problem_whitelist == self.problem_whitelist,
    {
        CompletionQuery {
            input: self.input,
            num_comps: self.num_comps,
            retries: self.retries,
            fallback: self.fallback,
            problem_whitelist: self.problem_whitelist,
        }
    }
}

/// The completion engine the pipeline asks for candidates: a prompt in,
/// at most `num_comps` candidates out. What the candidates hold is the
/// engine's business; nothing further is promised of them.
pub trait CompletionEngine {
    /// Asks for candidates for one query.
    fn complete(&mut self, q: &CompletionQuery) -> (r: Result<Vec<Completion>, CompletionError>)
        ensures
            r matches Ok(cs) ==> cs@.len() <= q.num_comps,
    ;
}

/// Asks the engine until it answers, giving up after six attempts in
/// all; `None` means every attempt failed.
pub fn retry_query_until_ok<E: CompletionEngine>(engine: &mut E, q: &CompletionQuery) -> (r: Option<
    Vec<Completion>,
>)
    ensures
        r matches Some(cs) ==> cs@.len() <= q.num_comps,
{
    let mut attempts: usize = 0;
    while attempts < 6
        invariant
            attempts <= 6,
        decreases 6 - attempts,
    {
        match engine.complete(q) {
            Ok(cs) => {
                return Some(cs);
            },
            Err(_) => {
                attempts += 1;
            },
        }
    }
    None
}

} // verus!
