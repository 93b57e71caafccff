//! Calls into outside crates, and into the parts of std that the verifier
//! has no specification for. Each function here is trusted: its contract
//! states only what the outside code's source shows, and its body holds
//! nothing but the call and the conversion of its result.

use vstd::prelude::*;

verus! {

/// Whether `meval::eval_str` accepts an expression. Parsing, unknown-name
/// and arity checking are functions of the expression text alone.
pub uninterp spec fn math_eval_ok(expr: Seq<char>) -> bool;

/// The error text `meval::eval_str` reports for a rejected expression:
/// also a function of the expression text alone.
pub uninterp spec fn math_err_of(expr: Seq<char>) -> Seq<char>;

/// Relies on `meval::eval_str`: evaluates an arithmetic expression with
/// the crate's fixed built-in context. Acceptance and the error text are
/// functions of the expression alone; the rendered value of an accepted
/// expression is not named, because evaluation may go through the
/// machine's float routines, whose precision std leaves unspecified.
#[verifier::external_body]
pub(crate) fn eval_math(expr: &str) -> (r: Result<String, String>)
    ensures
        r is Ok <==> math_eval_ok(expr@),
        r is Err ==> r->Err_0@ == math_err_of(expr@),
{
    match meval::eval_str(expr) {
        Ok(v) => Ok(format!("{}", v)),
        Err(e) => Err(format!("{}", e)),
    }
}

/// What `urlencoding::encode` produces: percent-encoding is a function of
/// the input text alone.
pub uninterp spec fn url_encoded(s: Seq<char>) -> Seq<char>;

/// Relies on `urlencoding::encode`: percent-encodes every byte except
/// ASCII alphanumerics and `-`, `_`, `.`, `~`; an empty input stays empty.
#[verifier::external_body]
pub(crate) fn url_encode(s: &str) -> (r: String)
    ensures
        r@ == url_encoded(s@),
        s@.len() == 0 ==> r@.len() == 0,
{
    urlencoding::encode(s).into_owned()
}

/// Relies on `uuid::Uuid::new_v4` and its `Display` form: a fresh random
/// identifier whose hyphenated text is always 36 characters. Nothing more
/// is promised: the value is random.
#[verifier::external_body]
pub(crate) fn fresh_run_id() -> (r: String)
    ensures
        r@.len() == 36,
{
    uuid::Uuid::new_v4().to_string()
}

/// What the standard `Debug` formatting renders a list of strings as: a
/// function of the listed strings alone.
pub uninterp spec fn debug_list_of(ids: Seq<Seq<char>>) -> Seq<char>;

/// Relies on the standard `Debug` formatting of `Vec<String>`: the
/// bracketed, quoted, comma-separated rendering (as in `["a", "b"]`) is a
/// function of the listed strings alone.
#[verifier::external_body]
pub(crate) fn debug_list(ids: &Vec<String>) -> (r: String)
    ensures
        r@ == debug_list_of(ids.deep_view()),
{
    format!("{:?}", ids)
}

/// Relies on `std::time::SystemTime::now`: seconds since the Unix epoch,
/// or 0 when the clock reads earlier than the epoch. Nothing is promised
/// of the value: it depends on the wall clock.
#[verifier::external_body]
pub(crate) fn now_unix_secs() -> u64 {
    match std::time::SystemTime::now().duration_since(std::time::UNIX_EPOCH) {
        Ok(d) => d.as_secs(),
        Err(_) => 0,
    }
}

/// What `str::to_lowercase` returns for a given character sequence: the
/// folding depends on the characters alone.
pub uninterp spec fn lower_of(s: Seq<char>) -> Seq<char>;

/// Relies on `str::to_lowercase`: its result is a function of the input
/// characters alone; an empty input folds to an empty output.
#[verifier::external_body]
pub(crate) fn lowercase(s: &str) -> (r: String)
    ensures
        r@ == lower_of(s@),
        s@.len() == 0 ==> r@.len() == 0,
{
    s.to_lowercase()
}

/// Relies on `str::trim`: removes the leading and trailing characters with
/// the Unicode white-space property — exactly those that
/// [`crate::strutil::is_wsp`] lists — and nothing else.
#[verifier::external_body]
pub(crate) fn trim_str(s: &str) -> (r: String)
    ensures
        r@ == crate::strutil::trim_seq(s@),
{
    s.trim().to_owned()
}

} // verus!
