//! The compiler flags of a build: which tracer the user asked for with
//! `-C tracer=<kind>`, and the flags to hand on.

use vstd::prelude::*;
use vstd::string::StringExecFns;

verus! {

/// Why the tracer could not be read off the compiler flags.
#[derive(Debug, Clone, Copy, PartialEq, Eq, Structural)]
pub enum TracerFlagError {
    /// No `-C tracer=<kind>` is among the flags.
    Missing,
    /// `-C tracer=<kind>` was specified more than once.
    Duplicate,
    /// The regex engine refused the pattern for the flag.
    Pattern,
}

impl TracerFlagError {
    /// The error in words.
    pub fn message(&self) -> (s: String)
        ensures
            s@ == match *self {
                TracerFlagError::Missing => "Please choose a tracer by setting `RUSTFLAGS=\"-C tracer=<kind>\"`."@,
                TracerFlagError::Duplicate => "`-C tracer=<kind>` was specified more than once in $RUSTFLAGS"@,
                TracerFlagError::Pattern => "the pattern for `-C tracer=<kind>` was refused"@,
            },
    {
        match self {
            TracerFlagError::Missing => "Please choose a tracer by setting `RUSTFLAGS=\"-C tracer=<kind>\"`.".to_owned(),
            TracerFlagError::Duplicate => "`-C tracer=<kind>` was specified more than once in $RUSTFLAGS".to_owned(),
            TracerFlagError::Pattern => "the pattern for `-C tracer=<kind>` was refused".to_owned(),
        }
    }
}

/// For a regular expression and a text: of each match of the expression
/// in the text, from left to right and without overlap, what the
/// expression's first group matched (nothing where the group took no
/// part). There is none where the expression is not a valid one.
pub uninterp spec fn regex_first_groups(pattern: Seq<char>, text: Seq<char>) -> Option<
    Seq<Seq<char>>,
>;

/// For a regular expression, a text and a replacement: the text with
/// every match of the expression replaced. There is none where the
/// expression is not a valid one.
pub uninterp spec fn regex_replaced(pattern: Seq<char>, text: Seq<char>, rep: Seq<char>) -> Option<
    Seq<char>,
>;

pub open spec fn strings_view(v: Seq<String>) -> Seq<Seq<char>> {
    Seq::new(v.len(), |i: int| v[i]@)
}

pub open spec fn opt_strings_view(v: Option<Vec<String>>) -> Option<Seq<Seq<char>>> {
    match v {
        Some(l) => Some(strings_view(l@)),
        None => None,
    }
}

pub open spec fn opt_string_view(s: Option<String>) -> Option<Seq<char>> {
    match s {
        Some(t) => Some(t@),
        None => None,
    }
}

/// Compiles `pattern` with `regex::Regex::new` and walks the text with
/// `Regex::captures_iter`, which yields the matches in order; of each it
/// takes the first group.
#[verifier::external_body]
fn first_groups(pattern: &str, text: &str) -> (r: Option<Vec<String>>)
    ensures
        opt_strings_view(r) == regex_first_groups(pattern@, text@),
{
    match regex::Regex::new(pattern) {
        Ok(re) => Some(
            re.captures_iter(text).map(|c| c.get(1).map_or(String::new(), |m| m.as_str().to_owned())).collect(),
        ),
        Err(_) => None,
    }
}

/// Compiles `pattern` with `regex::Regex::new` and replaces every match
/// in the text with `Regex::replace_all`.
#[verifier::external_body]
fn replace_all(pattern: &str, text: &str, rep: &str) -> (r: Option<String>)
    ensures
        opt_string_view(r) == regex_replaced(pattern@, text@, rep@),
{
    match regex::Regex::new(pattern) {
        Ok(re) => Some(re.replace_all(text, rep).into_owned()),
        Err(_) => None,
    }
}

/// The tracer that the flags name, from the kinds that the flag pattern
/// found in them.
pub open spec fn spec_pick_tracing_kind(kinds: Option<Seq<Seq<char>>>) -> Result<
    Seq<char>,
    TracerFlagError,
> {
    match kinds {
        None => Err(TracerFlagError::Pattern),
        Some(l) => if l.len() == 0 {
            Err(TracerFlagError::Missing)
        } else if l.len() > 1 {
            Err(TracerFlagError::Duplicate)
        } else {
            Ok(l[0])
        },
    }
}

/// Says which tracer the matches of the flag pattern name: the flag has
/// to be there, and only once.
pub fn pick_tracing_kind(kinds: Option<Vec<String>>) -> (r: Result<String, TracerFlagError>)
    ensures
        match (r, spec_pick_tracing_kind(opt_strings_view(kinds))) {
            (Ok(k), Ok(sk)) => k@ == sk,
            (Err(e), Err(se)) => e == se,
            _ => false,
        },
{
    match kinds {
        None => Err(TracerFlagError::Pattern),
        Some(mut l) => {
            if l.len() == 0 {
                return Err(TracerFlagError::Missing);
            }
            if l.len() > 1 {
                return Err(TracerFlagError::Duplicate);
            }
            let ghost before = l@;
            let kind = l.pop().unwrap();
            assert(kind == before[0]);
            Ok(kind)
        },
    }
}

/// Determine what kind of tracing the user has requested at compile
/// time, by looking at the compiler flags.
pub fn find_tracing_kind(rustflags: &str) -> (r: Result<String, TracerFlagError>)
    ensures
        match (
            r,
            spec_pick_tracing_kind(regex_first_groups(r"-C\s*tracer=([a-z]*)"@, rustflags@)),
        ) {
            (Ok(k), Ok(sk)) => k@ == sk,
            (Err(e), Err(se)) => e == se,
            _ => false,
        },
{
    let kinds = first_groups(r"-C\s*tracer=([a-z]*)", rustflags);
    pick_tracing_kind(kinds)
}

/// The flags for the internal workspace, from the flags with the tracer
/// flag taken out and from the tracer's kind.
pub open spec fn spec_internal_rustflags(stripped: Seq<char>, kind: Seq<char>) -> Seq<char> {
    stripped + " --cfg tracermode=\""@ + kind + "\""@
}

/// Appends to the flags the tracermode cfg, without changing anything
/// relating to code generation.
pub fn internal_rustflags(stripped: String, kind: &str) -> (r: String)
    ensures
        r@ == spec_internal_rustflags(stripped@, kind@),
{
    let mut int_rustflags = stripped;
    int_rustflags.append(" --cfg tracermode=\"");
    int_rustflags.append(kind);
    int_rustflags.append("\"");
    int_rustflags
}

/// Given the compiler flags for the external workspace, make flags for
/// the internal one.
pub fn make_internal_rustflags(rustflags: &str) -> (r: Result<String, TracerFlagError>)
    ensures
        match r {
            Ok(flags) => regex_replaced(r"-C\s*tracer=[a-z]*"@, rustflags@, ""@) matches Some(
                stripped,
            ) && spec_pick_tracing_kind(
                regex_first_groups(r"-C\s*tracer=([a-z]*)"@, rustflags@),
            ) matches Ok(kind) && flags@ == spec_internal_rustflags(stripped, kind),
            Err(e) => if regex_replaced(r"-C\s*tracer=[a-z]*"@, rustflags@, ""@) is None {
                e == TracerFlagError::Pattern
            } else {
                spec_pick_tracing_kind(regex_first_groups(r"-C\s*tracer=([a-z]*)"@, rustflags@))
                    == Err::<Seq<char>, TracerFlagError>(e)
            },
        },
{
    // Remove `-C tracer=<kind>`, as this would stifle optimisations.
    let stripped = match replace_all(r"-C\s*tracer=[a-z]*", rustflags, "") {
        Some(s) => s,
        None => { return Err(TracerFlagError::Pattern); },
    };
    // Set the tracermode cfg, but without changing anything relating to code generation.
    let tracing_kind = find_tracing_kind(rustflags)?;
    Ok(internal_rustflags(stripped, tracing_kind.as_str()))
}

} // verus!
