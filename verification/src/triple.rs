//! The mandatory part of a version: major, minor and patch number.

use crate::decimal::{
    decimal_text, is_u32_text, parse_u32, parse_u32_spec, push_u32, NumberError,
};
use crate::message::{
    debug_string, debug_text, failure_message, failure_text, shape_message, shape_text,
};
use crate::tokens::{join_dots, lemma_split_dots, split_dots, Tokens};
use vstd::prelude::*;
use vstd::string::*;

verus! {

/// A version of three numbers, written `major.minor.patch`.
#[derive(Clone, Copy, Debug, PartialEq, Eq, Structural, Ord)]
pub struct VersionTriple {
    pub major: u32,
    pub minor: u32,
    pub patch: u32,
}

/// Why a text is not a version triple.
#[derive(Debug, PartialEq, Eq)]
pub enum VersionTripleError {
    /// The first token is not a number.
    MajorInvalid { version: String, source: NumberError },
    /// The second token is not a number.
    MinorInvalid { version: String, source: NumberError },
    /// The third token is not a number.
    PatchInvalid { version: String, source: NumberError },
    /// The text has more than three tokens.
    VersionStringInvalid { version: String },
}

/// A `VersionTripleError` as a mathematical value: the offending text is a
/// sequence of characters.
pub enum TripleFailure {
    MajorInvalid { version: Seq<char>, source: NumberError },
    MinorInvalid { version: Seq<char>, source: NumberError },
    PatchInvalid { version: Seq<char>, source: NumberError },
    VersionStringInvalid { version: Seq<char> },
}

impl View for VersionTripleError {
    type V = TripleFailure;

    open spec fn view(&self) -> TripleFailure {
        match self {
            VersionTripleError::MajorInvalid { version, source } => TripleFailure::MajorInvalid {
                version: version@,
                source: *source,
            },
            VersionTripleError::MinorInvalid { version, source } => TripleFailure::MinorInvalid {
                version: version@,
                source: *source,
            },
            VersionTripleError::PatchInvalid { version, source } => TripleFailure::PatchInvalid {
                version: version@,
                source: *source,
            },
            VersionTripleError::VersionStringInvalid { version } => {
                TripleFailure::VersionStringInvalid { version: version@ }
            },
        }
    }
}

/// The message of the failure `e`.
pub open spec fn triple_failure_text(e: TripleFailure) -> Seq<char> {
    match e {
        TripleFailure::MajorInvalid { version, source } => failure_text(
            "major version"@,
            debug_text(version),
            source,
        ),
        TripleFailure::MinorInvalid { version, source } => failure_text(
            "minor version"@,
            debug_text(version),
            source,
        ),
        TripleFailure::PatchInvalid { version, source } => failure_text(
            "patch version"@,
            debug_text(version),
            source,
        ),
        TripleFailure::VersionStringInvalid { version } => shape_text(debug_text(version)),
    }
}

impl VersionTripleError {
    /// The message of the error: what could not be read, from which text,
    /// and why.
    pub fn to_string(&self) -> (r: String)
        ensures
            r@ == triple_failure_text(self@),
    {
        match self {
            VersionTripleError::MajorInvalid { version, source } => {
                let quoted = debug_string(version.as_str());
                failure_message("major version", quoted.as_str(), *source)
            },
            VersionTripleError::MinorInvalid { version, source } => {
                let quoted = debug_string(version.as_str());
                failure_message("minor version", quoted.as_str(), *source)
            },
            VersionTripleError::PatchInvalid { version, source } => {
                let quoted = debug_string(version.as_str());
                failure_message("patch version", quoted.as_str(), *source)
            },
            VersionTripleError::VersionStringInvalid { version } => {
                let quoted = debug_string(version.as_str());
                shape_message(quoted.as_str())
            },
        }
    }
}

/// The outcome of reading a triple, with the error as a mathematical value.
pub open spec fn triple_outcome(r: Result<VersionTriple, VersionTripleError>) -> Result<
    VersionTriple,
    TripleFailure,
> {
    match r {
        Ok(triple) => Ok(triple),
        Err(e) => Err(e@),
    }
}

/// Every token is a number.
pub open spec fn all_numbers(tokens: Seq<Seq<char>>) -> bool {
    forall|i: int| 0 <= i < tokens.len() ==> is_u32_text(#[trigger] tokens[i])
}

/// The major number that `tokens` start with. It is mandatory: where there
/// is no token at all, it is read from the empty text, which fails.
pub open spec fn major_of(tokens: Seq<Seq<char>>) -> Result<u32, NumberError> {
    if tokens.len() > 0 {
        parse_u32_spec(tokens[0])
    } else {
        parse_u32_spec(Seq::empty())
    }
}

/// The minor (`i == 1`) or patch (`i == 2`) number of `tokens`: zero where
/// the token is left out.
pub open spec fn optional_of(tokens: Seq<Seq<char>>, i: int) -> Result<u32, NumberError> {
    if i < tokens.len() {
        parse_u32_spec(tokens[i])
    } else {
        Ok(0u32)
    }
}

/// The triple that the first three of `tokens` denote. `version` is the
/// text that an error reports.
pub open spec fn triple_of_tokens(tokens: Seq<Seq<char>>, version: Seq<char>) -> Result<
    VersionTriple,
    TripleFailure,
> {
    match major_of(tokens) {
        Err(source) => Err(TripleFailure::MajorInvalid { version, source }),
        Ok(major) => match optional_of(tokens, 1) {
            Err(source) => Err(TripleFailure::MinorInvalid { version, source }),
            Ok(minor) => match optional_of(tokens, 2) {
                Err(source) => Err(TripleFailure::PatchInvalid { version, source }),
                Ok(patch) => Ok(VersionTriple { major, minor, patch }),
            },
        },
    }
}

/// How many of `tokens` reading a triple takes from the front: up to three,
/// and none after the one that is not a number.
pub open spec fn tokens_taken(tokens: Seq<Seq<char>>) -> nat {
    let wanted: nat = if major_of(tokens) is Err {
        1
    } else if optional_of(tokens, 1) is Err {
        2
    } else {
        3
    };
    if wanted <= tokens.len() {
        wanted
    } else {
        tokens.len()
    }
}

/// The triple that the text `s` denotes: one to three numbers with dots
/// between them.
pub open spec fn parse_triple(s: Seq<char>) -> Result<VersionTriple, TripleFailure> {
    let tokens = split_dots(s);
    if tokens.len() <= 3 {
        triple_of_tokens(tokens, s)
    } else {
        Err(TripleFailure::VersionStringInvalid { version: s })
    }
}

/// The three numbers of `t` in decimal notation.
pub open spec fn triple_tokens(t: VersionTriple) -> Seq<Seq<char>> {
    seq![decimal_text(t.major as nat), decimal_text(t.minor as nat), decimal_text(t.patch as nat)]
}

/// The canonical text of `t`: all three numbers, with dots between them.
pub open spec fn triple_text(t: VersionTriple) -> Seq<char> {
    join_dots(triple_tokens(t))
}

impl VersionTriple {
    /// The triple `major.minor.patch`.
    pub fn new(major: u32, minor: u32, patch: u32) -> (t: VersionTriple)
        ensures
            t == (VersionTriple { major, minor, patch }),
    {
        VersionTriple { major, minor, patch }
    }

    /// Reads a triple from the front of `tokens` and moves the cursor past
    /// what was read. `version` is the text that an error reports.
    pub fn from_split(tokens: &mut Tokens<'_>, version: &str) -> (r: Result<
        VersionTriple,
        VersionTripleError,
    >)
        ensures
            triple_outcome(r) == triple_of_tokens(old(tokens)@, version@),
            final(tokens)@ == old(tokens)@.skip(tokens_taken(old(tokens)@) as int),
    {
        proof {
            reveal_strlit("");
        }
        let ghost all = tokens@;
        let first = match tokens.next() {
            Some(token) => token,
            None => "",
        };
        assert(first@ =~= if all.len() > 0 {
            all[0]
        } else {
            Seq::empty()
        });
        let major = match parse_u32(first) {
            Ok(n) => n,
            Err(source) => {
                assert(tokens@ =~= all.skip(tokens_taken(all) as int));
                return Err(VersionTripleError::MajorInvalid { version: version.to_owned(), source });
            },
        };
        let minor = match tokens.next() {
            None => 0,
            Some(token) => match parse_u32(token) {
                Ok(n) => n,
                Err(source) => {
                    assert(tokens@ =~= all.skip(tokens_taken(all) as int));
                    return Err(
                        VersionTripleError::MinorInvalid { version: version.to_owned(), source },
                    );
                },
            },
        };
        let patch = match tokens.next() {
            None => 0,
            Some(token) => match parse_u32(token) {
                Ok(n) => n,
                Err(source) => {
                    assert(tokens@ =~= all.skip(tokens_taken(all) as int));
                    return Err(
                        VersionTripleError::PatchInvalid { version: version.to_owned(), source },
                    );
                },
            },
        };
        assert(tokens@ =~= all.skip(tokens_taken(all) as int));
        Ok(VersionTriple { major, minor, patch })
    }

    /// Reads a triple from a text of one to three numbers with dots between
    /// them; a number that is left out is zero. It succeeds exactly on such
    /// texts.
    pub fn from_str(v: &str) -> (r: Result<VersionTriple, VersionTripleError>)
        ensures
            triple_outcome(r) == parse_triple(v@),
            r is Ok <==> split_dots(v@).len() <= 3 && all_numbers(split_dots(v@)),
    {
        proof {
            lemma_triple_succeeds(v@);
        }
        if Tokens::split(v).count() <= 3 {
            let mut tokens = Tokens::split(v);
            VersionTriple::from_split(&mut tokens, v)
        } else {
            Err(VersionTripleError::VersionStringInvalid { version: v.to_owned() })
        }
    }

    /// The canonical text of the triple.
    pub fn to_string(&self) -> (r: String)
        ensures
            r@ == triple_text(*self),
    {
        let mut out = String::new();
        push_u32(&mut out, self.major);
        out.append(".");
        push_u32(&mut out, self.minor);
        out.append(".");
        push_u32(&mut out, self.patch);
        proof {
            reveal_strlit(".");
            reveal_with_fuel(join_dots, 3);
            let t = triple_tokens(*self);
            assert(t.drop_first().drop_first()[0] == t[2]);
            assert(out@ =~= triple_text(*self));
        }
        out
    }
}

/// The first three tokens denote a triple exactly where the first token is
/// a number and so are the second and the third, where they are there.
pub proof fn lemma_triple_of_tokens_succeeds(tokens: Seq<Seq<char>>, version: Seq<char>)
    requires
        tokens.len() >= 1,
    ensures
        triple_of_tokens(tokens, version) is Ok <==> forall|i: int|
            0 <= i < tokens.len() && i < 3 ==> is_u32_text(#[trigger] tokens[i]),
{
    if triple_of_tokens(tokens, version) is Ok {
        assert forall|i: int| 0 <= i < tokens.len() && i < 3 implies is_u32_text(
            #[trigger] tokens[i],
        ) by {
            assert(i == 0 || i == 1 || i == 2);
        }
    }
}

/// A text denotes a triple exactly where it has at most three tokens and
/// each of them is a number.
pub proof fn lemma_triple_succeeds(s: Seq<char>)
    ensures
        parse_triple(s) is Ok <==> split_dots(s).len() <= 3 && all_numbers(split_dots(s)),
{
    let tokens = split_dots(s);
    lemma_split_dots(s);
    if tokens.len() <= 3 {
        lemma_triple_of_tokens_succeeds(tokens, s);
    }
}

} // verus!
