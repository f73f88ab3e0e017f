//! A version number: a triple, and any further numbers that follow it.

use crate::decimal::{
    decimal_text, is_u32_text, lemma_decimal_text, lemma_parse_decimal_text, parse_u32,
    parse_u32_spec, push_u32, u32_value, NumberError,
};
use crate::message::{debug_string, debug_text, failure_message, failure_text};
use crate::tokens::{dot_free, join_dots, lemma_join_push, lemma_split_join, split_dots, Tokens};
use crate::triple::{
    all_numbers, lemma_triple_of_tokens_succeeds, lemma_triple_succeeds, parse_triple,
    triple_of_tokens, triple_tokens, TripleFailure, VersionTriple, VersionTripleError,
};
use vstd::prelude::*;
use vstd::string::*;

verus! {

/// Why a text is not a version number.
#[derive(Debug, PartialEq, Eq)]
pub enum VersionNumberError {
    /// A token after the triple is not a number.
    ExtraVersionInvalid { version: String, source: NumberError },
    /// The triple at the front could not be read.
    VersionTriplerError(VersionTripleError),
}

/// A `VersionNumberError` as a mathematical value.
pub enum VersionFailure {
    ExtraVersionInvalid { version: Seq<char>, source: NumberError },
    VersionTriplerError(TripleFailure),
}

impl View for VersionNumberError {
    type V = VersionFailure;

    open spec fn view(&self) -> VersionFailure {
        match self {
            VersionNumberError::ExtraVersionInvalid { version, source } => {
                VersionFailure::ExtraVersionInvalid { version: version@, source: *source }
            },
            VersionNumberError::VersionTriplerError(e) => VersionFailure::VersionTriplerError(e@),
        }
    }
}

/// The message of the failure `e`.
pub open spec fn version_failure_text(e: VersionFailure) -> Seq<char> {
    match e {
        VersionFailure::ExtraVersionInvalid { version, source } => failure_text(
            "extra version"@,
            debug_text(version),
            source,
        ),
        VersionFailure::VersionTriplerError(_) => "Failed to parse version triple."@,
    }
}

impl VersionNumberError {
    /// The message of the error. For the triple it only says that the triple
    /// failed: the error inside says why.
    pub fn to_string(&self) -> (r: String)
        ensures
            r@ == version_failure_text(self@),
    {
        match self {
            VersionNumberError::ExtraVersionInvalid { version, source } => {
                let quoted = debug_string(version.as_str());
                failure_message("extra version", quoted.as_str(), *source)
            },
            VersionNumberError::VersionTriplerError(_) => String::from_str(
                "Failed to parse version triple.",
            ),
        }
    }
}

impl From<VersionTripleError> for VersionNumberError {
    fn from(e: VersionTripleError) -> (r: VersionNumberError) {
        VersionNumberError::VersionTriplerError(e)
    }
}

impl vstd::std_specs::convert::FromSpecImpl<VersionTripleError> for VersionNumberError {
    open spec fn obeys_from_spec() -> bool {
        true
    }

    open spec fn from_spec(e: VersionTripleError) -> VersionNumberError {
        VersionNumberError::VersionTriplerError(e)
    }
}

/// A triple, optionally followed by further numbers.
///
/// `extra` is `None` where nothing follows the triple. `Some` of an empty
/// list is a different value, though it is written the same way.
#[derive(Debug, Eq, Ord)]
pub struct VersionNumber {
    pub triple: VersionTriple,
    pub extra: Option<Vec<u32>>,
}

/// A `VersionNumber` as a mathematical value.
pub struct VersionNumberView {
    pub triple: VersionTriple,
    pub extra: Option<Seq<u32>>,
}

impl View for VersionNumber {
    type V = VersionNumberView;

    open spec fn view(&self) -> VersionNumberView {
        VersionNumberView {
            triple: self.triple,
            extra: match self.extra {
                None => None,
                Some(numbers) => Some(numbers@),
            },
        }
    }
}

impl Clone for VersionNumber {
    fn clone(&self) -> (r: VersionNumber)
        ensures
            r@ == self@,
    {
        let extra = match &self.extra {
            None => None,
            Some(numbers) => {
                let copy = numbers.clone();
                assert(copy@ =~= numbers@);
                Some(copy)
            },
        };
        VersionNumber { triple: self.triple, extra }
    }
}

/// The outcome of reading a version number, as a mathematical value.
pub open spec fn version_outcome(r: Result<VersionNumber, VersionNumberError>) -> Result<
    VersionNumberView,
    VersionFailure,
> {
    match r {
        Ok(number) => Ok(number@),
        Err(e) => Err(e@),
    }
}

/// The numbers that `tokens` denote, or the failure of the first token from
/// the left that is not a number.
pub open spec fn parse_extras(tokens: Seq<Seq<char>>) -> Result<Seq<u32>, NumberError>
    decreases tokens.len(),
{
    if tokens.len() == 0 {
        Ok(Seq::empty())
    } else {
        match parse_extras(tokens.drop_last()) {
            Err(source) => Err(source),
            Ok(numbers) => match parse_u32_spec(tokens.last()) {
                Err(source) => Err(source),
                Ok(n) => Ok(numbers.push(n)),
            },
        }
    }
}

/// The number that each token denotes, in the order of the tokens.
pub open spec fn numbers_of(tokens: Seq<Seq<char>>) -> Seq<u32> {
    Seq::new(tokens.len(), |i: int| u32_value(tokens[i]))
}

/// The version number that the text `s` denotes.
///
/// A text of up to three tokens is a bare triple. In a longer one the first
/// three tokens are the triple and every further token is one extra number.
pub open spec fn parse_version(s: Seq<char>) -> Result<VersionNumberView, VersionFailure> {
    let tokens = split_dots(s);
    if tokens.len() <= 3 {
        match parse_triple(s) {
            Err(e) => Err(VersionFailure::VersionTriplerError(e)),
            Ok(triple) => Ok(VersionNumberView { triple, extra: None }),
        }
    } else {
        match triple_of_tokens(tokens, s) {
            Err(e) => Err(VersionFailure::VersionTriplerError(e)),
            Ok(triple) => match parse_extras(tokens.skip(3)) {
                Err(source) => Err(VersionFailure::ExtraVersionInvalid { version: s, source }),
                Ok(numbers) => Ok(VersionNumberView { triple, extra: Some(numbers) }),
            },
        }
    }
}

/// Each of `numbers` in decimal notation.
pub open spec fn extra_tokens(numbers: Seq<u32>) -> Seq<Seq<char>> {
    Seq::new(numbers.len(), |i: int| decimal_text(numbers[i] as nat))
}

/// The tokens of the canonical text of `v`: the triple's three numbers, then
/// the extra numbers.
pub open spec fn version_tokens(v: VersionNumberView) -> Seq<Seq<char>> {
    triple_tokens(v.triple) + match v.extra {
        None => Seq::empty(),
        Some(numbers) => extra_tokens(numbers),
    }
}

/// The canonical text of `v`: its numbers with dots between them.
pub open spec fn version_text(v: VersionNumberView) -> Seq<char> {
    join_dots(version_tokens(v))
}

impl VersionNumber {
    /// The version that is `triple` and nothing more.
    pub fn new_from_triple(triple: VersionTriple) -> (r: VersionNumber)
        ensures
            r@ == (VersionNumberView { triple, extra: None }),
    {
        VersionNumber { triple, extra: None }
    }

    /// The version that is `other` with `number` added at the end of its
    /// extra numbers. `other` is only read.
    pub fn from_other_and_number(other: &VersionNumber, number: u32) -> (r: VersionNumber)
        ensures
            r@.triple == other@.triple,
            r@.extra == Some(
                match other@.extra {
                    None => seq![number],
                    Some(numbers) => numbers.push(number),
                },
            ),
    {
        let extra = match &other.extra {
            None => {
                let mut numbers: Vec<u32> = Vec::new();
                numbers.push(number);
                assert(numbers@ =~= seq![number]);
                numbers
            },
            Some(old_numbers) => {
                let mut numbers = old_numbers.clone();
                assert(numbers@ =~= old_numbers@);
                numbers.push(number);
                numbers
            },
        };
        VersionNumber::new(other.triple, Some(extra))
    }

    /// The version made of `triple` and `extra`.
    pub fn new(triple: VersionTriple, extra: Option<Vec<u32>>) -> (r: VersionNumber)
        ensures
            r.triple == triple,
            r.extra == extra,
    {
        VersionNumber { triple, extra }
    }

    /// Reads a version number from its text.
    ///
    /// It succeeds exactly where every token of the text is a number. A text
    /// of one, two or three tokens never gives extra numbers. A text of more
    /// tokens gives one extra number for each token after the third, in the
    /// order of the text.
    pub fn from_str(v: &str) -> (r: Result<VersionNumber, VersionNumberError>)
        ensures
            version_outcome(r) == parse_version(v@),
            r is Ok <==> all_numbers(split_dots(v@)),
            split_dots(v@).len() <= 3 ==> (r matches Ok(number) ==> number.extra is None),
            split_dots(v@).len() > 3 ==> (r matches Ok(number) ==> number@.extra == Some(
                numbers_of(split_dots(v@).skip(3)),
            ) && number@.extra->Some_0.len() == split_dots(v@).len() - 3),
    {
        proof {
            lemma_version_succeeds(v@);
            lemma_extras_extracted(v@);
        }
        if Tokens::split(v).count() <= 3 {
            match VersionTriple::from_str(v) {
                Ok(triple) => Ok(VersionNumber { triple, extra: None }),
                Err(e) => Err(VersionNumberError::from(e)),
            }
        } else {
            let mut s = Tokens::split(v);
            let ghost all = s@;
            let triple = match VersionTriple::from_split(&mut s, v) {
                Ok(triple) => triple,
                Err(e) => {
                    return Err(VersionNumberError::from(e));
                },
            };
            let ghost rest = all.skip(3);
            assert(s@ == rest);
            let mut extra: Vec<u32> = Vec::new();
            let ghost mut done: int = 0;
            loop
                invariant
                    all == split_dots(v@),
                    all.len() > 3,
                    rest == all.skip(3),
                    triple_of_tokens(all, v@) == Ok::<VersionTriple, TripleFailure>(triple),
                    0 <= done <= rest.len(),
                    s@ == rest.skip(done),
                    parse_extras(rest.take(done)) == Ok::<Seq<u32>, NumberError>(extra@),
                ensures
                    done == rest.len(),
                    parse_extras(rest) == Ok::<Seq<u32>, NumberError>(extra@),
                decreases rest.len() - done,
            {
                match s.next() {
                    None => {
                        assert(rest.take(done) =~= rest);
                        break;
                    },
                    Some(token) => {
                        proof {
                            assert(token@ == rest[done]);
                            assert(rest.take(done + 1).drop_last() =~= rest.take(done));
                            assert(s@ =~= rest.skip(done + 1));
                        }
                        match parse_u32(token) {
                            Ok(n) => {
                                extra.push(n);
                                proof {
                                    done = done + 1;
                                }
                            },
                            Err(source) => {
                                proof {
                                    lemma_parse_extras_fails(rest, done);
                                }
                                return Err(
                                    VersionNumberError::ExtraVersionInvalid {
                                        version: v.to_owned(),
                                        source,
                                    },
                                );
                            },
                        }
                    },
                }
            }
            Ok(VersionNumber { triple, extra: Some(extra) })
        }
    }

    /// The canonical text of the version: the triple, then a dot and the
    /// number for each extra number.
    pub fn to_string(&self) -> (r: String)
        ensures
            r@ == version_text(self@),
    {
        let mut out = self.triple.to_string();
        match &self.extra {
            None => {
                assert(version_tokens(self@) =~= triple_tokens(self.triple));
            },
            Some(numbers) => {
                let ghost head = triple_tokens(self.triple);
                let ghost texts = extra_tokens(numbers@);
                let mut i: usize = 0;
                assert(head + texts.take(0) =~= head);
                while i < numbers.len()
                    invariant
                        0 <= i <= numbers.len(),
                        head == triple_tokens(self.triple),
                        texts == extra_tokens(numbers@),
                        out@ == join_dots(head + texts.take(i as int)),
                    decreases numbers.len() - i,
                {
                    out.append(".");
                    push_u32(&mut out, numbers[i]);
                    proof {
                        reveal_strlit(".");
                        lemma_join_push(head + texts.take(i as int), texts[i as int]);
                        assert((head + texts.take(i as int)).push(texts[i as int]) =~= head
                            + texts.take(i + 1));
                        assert(out@ =~= join_dots(head + texts.take(i + 1)));
                    }
                    i += 1;
                }
                assert(texts.take(i as int) =~= texts);
            },
        }
        out
    }
}

/// Where the tokens before place `k` are numbers and the one at `k` is not,
/// reading the numbers fails as that token does.
pub proof fn lemma_parse_extras_fails(tokens: Seq<Seq<char>>, k: int)
    requires
        0 <= k < tokens.len(),
        parse_extras(tokens.take(k)) is Ok,
        parse_u32_spec(tokens[k]) is Err,
    ensures
        parse_extras(tokens) == Err::<Seq<u32>, NumberError>(parse_u32_spec(tokens[k])->Err_0),
    decreases tokens.len(),
{
    if k == tokens.len() - 1 {
        assert(tokens.drop_last() =~= tokens.take(k));
    } else {
        let front = tokens.drop_last();
        assert(front.take(k) =~= tokens.take(k));
        lemma_parse_extras_fails(front, k);
    }
}

/// Tokens that are all numbers are read as exactly those numbers.
pub proof fn lemma_parse_extras_all(tokens: Seq<Seq<char>>)
    requires
        all_numbers(tokens),
    ensures
        parse_extras(tokens) == Ok::<Seq<u32>, NumberError>(numbers_of(tokens)),
    decreases tokens.len(),
{
    if tokens.len() > 0 {
        let front = tokens.drop_last();
        assert forall|i: int| 0 <= i < front.len() implies is_u32_text(#[trigger] front[i]) by {
            assert(front[i] == tokens[i]);
        }
        lemma_parse_extras_all(front);
        assert(is_u32_text(tokens[tokens.len() - 1]));
        assert(numbers_of(front).push(u32_value(tokens.last())) =~= numbers_of(tokens));
    } else {
        assert(numbers_of(tokens) =~= Seq::<u32>::empty());
    }
}

/// Where reading the numbers succeeds, there is one number for each token.
pub proof fn lemma_parse_extras_len(tokens: Seq<Seq<char>>)
    requires
        parse_extras(tokens) is Ok,
    ensures
        parse_extras(tokens)->Ok_0.len() == tokens.len(),
    decreases tokens.len(),
{
    if tokens.len() > 0 {
        lemma_parse_extras_len(tokens.drop_last());
    }
}

/// Reading the numbers succeeds exactly where every token is a number.
pub proof fn lemma_parse_extras_succeeds(tokens: Seq<Seq<char>>)
    ensures
        parse_extras(tokens) is Ok <==> all_numbers(tokens),
    decreases tokens.len(),
{
    if tokens.len() > 0 {
        let front = tokens.drop_last();
        lemma_parse_extras_succeeds(front);
        if all_numbers(tokens) {
            assert forall|i: int| 0 <= i < front.len() implies is_u32_text(#[trigger] front[i]) by {
                assert(front[i] == tokens[i]);
            }
            assert(is_u32_text(tokens[tokens.len() - 1]));
        }
        if parse_extras(tokens) is Ok {
            assert forall|i: int| 0 <= i < tokens.len() implies is_u32_text(#[trigger] tokens[i]) by {
                if i < front.len() {
                    assert(front[i] == tokens[i]);
                }
            }
        }
    }
}

/// A text denotes a version exactly where each of its tokens is a number.
pub proof fn lemma_version_succeeds(s: Seq<char>)
    ensures
        parse_version(s) is Ok <==> all_numbers(split_dots(s)),
{
    let tokens = split_dots(s);
    if tokens.len() <= 3 {
        lemma_triple_succeeds(s);
    } else {
        let rest = tokens.skip(3);
        lemma_triple_of_tokens_succeeds(tokens, s);
        lemma_parse_extras_succeeds(rest);
        if all_numbers(tokens) {
            assert forall|i: int| 0 <= i < rest.len() implies is_u32_text(#[trigger] rest[i]) by {
                assert(rest[i] == tokens[i + 3]);
            }
        }
        if parse_version(s) is Ok {
            assert forall|i: int| 0 <= i < tokens.len() implies is_u32_text(#[trigger] tokens[i]) by {
                if i >= 3 {
                    assert(rest[i - 3] == tokens[i]);
                }
            }
        }
    }
}

/// A text of more than three tokens that denotes a version gives one extra
/// number for each token after the third, in the order of the text.
pub proof fn lemma_extras_extracted(s: Seq<char>)
    ensures
        split_dots(s).len() > 3 ==> (parse_version(s) matches Ok(v) ==> v.extra == Some(
            numbers_of(split_dots(s).skip(3)),
        ) && v.extra->Some_0.len() == split_dots(s).len() - 3),
{
    let tokens = split_dots(s);
    if tokens.len() > 3 && parse_version(s) is Ok {
        let rest = tokens.skip(3);
        lemma_parse_extras_succeeds(rest);
        lemma_parse_extras_all(rest);
    }
}

/// A decimal digit is not a dot.
pub proof fn lemma_decimal_text_dot_free(n: nat)
    ensures
        dot_free(decimal_text(n)),
{
    lemma_decimal_text(n);
}

/// The canonical text of a version, read again, gives the version back.
///
/// The one exception is a version whose extra numbers are the empty list: it
/// is written like the bare triple, and is read as the bare triple.
pub proof fn lemma_text_round_trip(v: VersionNumberView)
    ensures
        v.extra != Some(Seq::<u32>::empty()) ==> parse_version(version_text(v)) == Ok::<
            VersionNumberView,
            VersionFailure,
        >(v),
        v.extra == Some(Seq::<u32>::empty()) ==> parse_version(version_text(v)) == Ok::<
            VersionNumberView,
            VersionFailure,
        >(VersionNumberView { triple: v.triple, extra: None }),
{
    let tokens = version_tokens(v);
    let text = version_text(v);
    let head = triple_tokens(v.triple);
    assert forall|i: int| 0 <= i < tokens.len() implies dot_free(#[trigger] tokens[i]) by {
        if i == 0 {
            lemma_decimal_text_dot_free(v.triple.major as nat);
        } else if i == 1 {
            lemma_decimal_text_dot_free(v.triple.minor as nat);
        } else if i == 2 {
            lemma_decimal_text_dot_free(v.triple.patch as nat);
        } else {
            lemma_decimal_text_dot_free(v.extra->Some_0[i - 3] as nat);
        }
    }
    lemma_split_join(tokens);
    assert(split_dots(text) == tokens);
    lemma_parse_decimal_text(v.triple.major);
    lemma_parse_decimal_text(v.triple.minor);
    lemma_parse_decimal_text(v.triple.patch);
    assert(tokens[0] == head[0] && tokens[1] == head[1] && tokens[2] == head[2]);
    assert(triple_of_tokens(tokens, text) == Ok::<VersionTriple, TripleFailure>(v.triple));
    match v.extra {
        None => {
            assert(tokens.len() == 3);
        },
        Some(numbers) => {
            if numbers.len() == 0 {
                assert(tokens.len() == 3);
                assert(numbers =~= Seq::<u32>::empty());
            } else {
                assert(tokens.len() == 3 + numbers.len());
                let rest = tokens.skip(3);
                assert(rest =~= extra_tokens(numbers));
                assert forall|i: int| 0 <= i < rest.len() implies is_u32_text(#[trigger] rest[i]) by {
                    lemma_parse_decimal_text(numbers[i]);
                }
                lemma_parse_extras_all(rest);
                assert forall|i: int| 0 <= i < numbers.len() implies numbers_of(rest)[i]
                    == numbers[i] by {
                    lemma_parse_decimal_text(numbers[i]);
                }
                assert(numbers_of(rest) =~= numbers);
            }
        },
    }
}

/// Reading a text and writing the version down gives a text that is read as
/// the same version: the canonical text is a fixed point of reading.
pub proof fn lemma_reparse(s: Seq<char>)
    requires
        parse_version(s) is Ok,
    ensures
        parse_version(version_text(parse_version(s)->Ok_0)) == parse_version(s),
{
    let v = parse_version(s)->Ok_0;
    let tokens = split_dots(s);
    if tokens.len() > 3 {
        lemma_parse_extras_len(tokens.skip(3));
    }
    lemma_text_round_trip(v);
}

} // verus!
