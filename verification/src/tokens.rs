//! Text cut at its dots: the tokens of a dotted version string.

use vstd::prelude::*;
use vstd::string::*;

verus! {

/// No character of `s` is a dot.
pub open spec fn dot_free(s: Seq<char>) -> bool {
    forall|i: int| 0 <= i < s.len() ==> #[trigger] s[i] != '.'
}

/// How many characters stand before the first dot of `s`; the whole length
/// where `s` has no dot.
pub open spec fn first_token_len(s: Seq<char>) -> nat
    decreases s.len(),
{
    if s.len() == 0 || s[0] == '.' {
        0
    } else {
        1 + first_token_len(s.drop_first())
    }
}

/// The tokens of `s`: the stretches of text between its dots, in order.
///
/// There is always at least one token, and a token may be empty: the empty
/// text has the one token `""`, and `"1..2"` has the tokens `"1"`, `""`, `"2"`.
pub open spec fn split_dots(s: Seq<char>) -> Seq<Seq<char>>
    decreases s.len(),
{
    let n = first_token_len(s) as int;
    if n >= s.len() {
        seq![s]
    } else {
        seq![s.take(n)] + split_dots(s.skip(n + 1))
    }
}

/// The tokens written one after the other with a dot between neighbours.
pub open spec fn join_dots(tokens: Seq<Seq<char>>) -> Seq<char>
    decreases tokens.len(),
{
    if tokens.len() == 0 {
        Seq::empty()
    } else if tokens.len() == 1 {
        tokens[0]
    } else {
        tokens[0] + seq!['.'] + join_dots(tokens.drop_first())
    }
}

/// Every token is free of dots.
pub open spec fn all_dot_free(tokens: Seq<Seq<char>>) -> bool {
    forall|i: int| 0 <= i < tokens.len() ==> dot_free(#[trigger] tokens[i])
}

/// The number of dots in `s`.
pub open spec fn dot_count(s: Seq<char>) -> nat
    decreases s.len(),
{
    if s.len() == 0 {
        0
    } else {
        dot_count(s.drop_last()) + if s.last() == '.' {
            1nat
        } else {
            0nat
        }
    }
}

/// `n`, or `usize::MAX` where `n` is above it.
pub open spec fn capped(n: nat) -> int {
    if n <= usize::MAX {
        n as int
    } else {
        usize::MAX as int
    }
}

/// The first token ends at the first dot or at the end of the text.
pub proof fn lemma_first_token_len_bounds(s: Seq<char>)
    ensures
        first_token_len(s) <= s.len(),
        dot_free(s.take(first_token_len(s) as int)),
        first_token_len(s) < s.len() ==> s[first_token_len(s) as int] == '.',
    decreases s.len(),
{
    if s.len() == 0 || s[0] == '.' {
    } else {
        let rest = s.drop_first();
        lemma_first_token_len_bounds(rest);
        let n = first_token_len(s) as int;
        assert forall|i: int| 0 <= i < n implies #[trigger] s.take(n)[i] != '.' by {
            if i > 0 {
                assert(s.take(n)[i] == rest.take(n - 1)[i - 1]);
            }
        }
    }
}

/// A dot-free prefix that ends at a dot or at the end of the text is the
/// first token.
pub proof fn lemma_first_token_len_is(s: Seq<char>, k: int)
    requires
        0 <= k <= s.len(),
        dot_free(s.take(k)),
        k < s.len() ==> s[k] == '.',
    ensures
        first_token_len(s) == k,
    decreases k,
{
    if k == 0 {
    } else {
        assert(s.take(k)[0] == s[0]);
        let rest = s.drop_first();
        assert forall|i: int| 0 <= i < k - 1 implies #[trigger] rest.take(k - 1)[i] != '.' by {
            assert(rest.take(k - 1)[i] == s.take(k)[i + 1]);
        }
        lemma_first_token_len_is(rest, k - 1);
    }
}

/// Text without a dot is its own single token.
pub proof fn lemma_split_dot_free(s: Seq<char>)
    requires
        dot_free(s),
    ensures
        split_dots(s) == seq![s],
{
    assert(s.take(s.len() as int) =~= s);
    lemma_first_token_len_is(s, s.len() as int);
}

/// A dot-free head followed by a dot is split off as the first token.
pub proof fn lemma_split_head(head: Seq<char>, rest: Seq<char>)
    requires
        dot_free(head),
    ensures
        split_dots(head + seq!['.'] + rest) == seq![head] + split_dots(rest),
{
    let s = head + seq!['.'] + rest;
    let k = head.len() as int;
    assert(s.take(k) =~= head);
    assert(s[k] == '.');
    lemma_first_token_len_is(s, k);
    assert(s.skip(k + 1) =~= rest);
}

/// Cutting text at its dots gives at least one token, none of which holds a
/// dot, and joining them with dots gives the text back.
pub proof fn lemma_split_dots(s: Seq<char>)
    ensures
        split_dots(s).len() >= 1,
        all_dot_free(split_dots(s)),
        join_dots(split_dots(s)) == s,
    decreases s.len(),
{
    let n = first_token_len(s) as int;
    lemma_first_token_len_bounds(s);
    if n >= s.len() {
        assert(s.take(n) =~= s);
    } else {
        let rest = s.skip(n + 1);
        lemma_split_dots(rest);
        let tokens = split_dots(s);
        assert(tokens.drop_first() =~= split_dots(rest));
        assert(join_dots(tokens) =~= s);
        assert forall|i: int| 0 <= i < tokens.len() implies dot_free(#[trigger] tokens[i]) by {
            if i > 0 {
                assert(tokens[i] == split_dots(rest)[i - 1]);
            }
        }
    }
}

/// Joining dot-free tokens with dots and cutting the text again gives the
/// same tokens.
pub proof fn lemma_split_join(tokens: Seq<Seq<char>>)
    requires
        tokens.len() >= 1,
        all_dot_free(tokens),
    ensures
        split_dots(join_dots(tokens)) == tokens,
    decreases tokens.len(),
{
    if tokens.len() == 1 {
        lemma_split_dot_free(tokens[0]);
        assert(seq![tokens[0]] =~= tokens);
    } else {
        let rest = tokens.drop_first();
        assert forall|i: int| 0 <= i < rest.len() implies dot_free(#[trigger] rest[i]) by {
            assert(rest[i] == tokens[i + 1]);
        }
        lemma_split_join(rest);
        lemma_split_head(tokens[0], join_dots(rest));
        assert(seq![tokens[0]] + rest =~= tokens);
    }
}

/// Joining one more token appends a dot and that token.
pub proof fn lemma_join_push(tokens: Seq<Seq<char>>, last: Seq<char>)
    requires
        tokens.len() >= 1,
    ensures
        join_dots(tokens.push(last)) == join_dots(tokens) + seq!['.'] + last,
    decreases tokens.len(),
{
    let longer = tokens.push(last);
    if tokens.len() == 1 {
        assert(longer.drop_first() =~= seq![last]);
        assert(join_dots(longer.drop_first()) == last);
    } else {
        lemma_join_push(tokens.drop_first(), last);
        assert(longer.drop_first() =~= tokens.drop_first().push(last));
        assert(join_dots(longer) =~= join_dots(tokens) + seq!['.'] + last);
    }
}

/// There is one token more than there are dots.
pub proof fn lemma_token_count(s: Seq<char>)
    ensures
        split_dots(s).len() == dot_count(s) + 1,
    decreases s.len(),
{
    let n = first_token_len(s) as int;
    lemma_first_token_len_bounds(s);
    if n >= s.len() {
        assert(s.take(n) =~= s);
        lemma_dot_free_count(s);
    } else {
        let rest = s.skip(n + 1);
        lemma_token_count(rest);
        lemma_dot_free_count(s.take(n));
        lemma_dot_count_concat(s.take(n + 1), rest);
        assert(s.take(n + 1) + rest =~= s);
        assert(s.take(n + 1).drop_last() =~= s.take(n));
    }
}

/// Text without dots has no dots to count.
pub proof fn lemma_dot_free_count(s: Seq<char>)
    requires
        dot_free(s),
    ensures
        dot_count(s) == 0,
    decreases s.len(),
{
    if s.len() > 0 {
        let front = s.drop_last();
        assert forall|i: int| 0 <= i < front.len() implies #[trigger] front[i] != '.' by {
            assert(front[i] == s[i]);
        }
        lemma_dot_free_count(front);
    }
}

/// The dots of two texts put together are the dots of each.
pub proof fn lemma_dot_count_concat(a: Seq<char>, b: Seq<char>)
    ensures
        dot_count(a + b) == dot_count(a) + dot_count(b),
    decreases b.len(),
{
    if b.len() == 0 {
        assert(a + b =~= a);
    } else {
        lemma_dot_count_concat(a, b.drop_last());
        assert((a + b).drop_last() =~= a + b.drop_last());
    }
}

/// One more character adds a token where it is a dot, and none otherwise.
pub proof fn lemma_split_extend(s: Seq<char>, k: int)
    requires
        0 <= k < s.len(),
    ensures
        split_dots(s.take(k + 1)).len() == split_dots(s.take(k)).len() + if s[k] == '.' {
            1int
        } else {
            0int
        },
{
    lemma_token_count(s.take(k + 1));
    lemma_token_count(s.take(k));
    assert(s.take(k + 1).drop_last() =~= s.take(k));
}

/// A cursor over the tokens of a dotted text that hands them out one by one,
/// from the left.
pub struct Tokens<'a> {
    rest: Option<&'a str>,
}

impl<'a> View for Tokens<'a> {
    type V = Seq<Seq<char>>;

    /// The tokens that have not been handed out yet.
    closed spec fn view(&self) -> Seq<Seq<char>> {
        match self.rest {
            None => Seq::empty(),
            Some(s) => split_dots(s@),
        }
    }
}

/// The place of the first dot of `s`, or `len` where there is none.
fn token_end(s: &str, len: usize) -> (n: usize)
    requires
        len == s@.len(),
    ensures
        n == first_token_len(s@),
        n <= len,
{
    let mut n: usize = 0;
    for c in it: s.chars()
        invariant
            it.seq() == s@,
            len == s@.len(),
            n == it.index(),
            dot_free(s@.take(n as int)),
    {
        if c == '.' {
            proof {
                lemma_first_token_len_is(s@, n as int);
            }
            return n;
        }
        proof {
            assert forall|i: int| 0 <= i < n + 1 implies #[trigger] s@.take(n + 1)[i] != '.' by {
                if i < n {
                    assert(s@.take(n + 1)[i] == s@.take(n as int)[i]);
                }
            }
        }
        n += 1;
    }
    proof {
        lemma_first_token_len_is(s@, n as int);
    }
    n
}

impl<'a> Tokens<'a> {
    /// A cursor at the first token of `v`. There is at least one token, no
    /// token holds a dot, and the tokens joined with dots are `v`.
    pub fn split(v: &'a str) -> (t: Tokens<'a>)
        ensures
            t@ == split_dots(v@),
            t@.len() >= 1,
            all_dot_free(t@),
            join_dots(t@) == v@,
    {
        proof {
            lemma_split_dots(v@);
        }
        Tokens { rest: Some(v) }
    }

    /// Hands out the next token and moves past it; `None` once all tokens
    /// have been handed out.
    pub fn next(&mut self) -> (r: Option<&'a str>)
        ensures
            old(self)@.len() == 0 ==> r is None && final(self)@ == old(self)@,
            old(self)@.len() > 0 ==> r is Some && r->0@ == old(self)@[0] && final(self)@ == old(
                self,
            )@.drop_first(),
    {
        match self.rest {
            None => None,
            Some(s) => {
                let len = s.unicode_len();
                let cut = token_end(s, len);
                if cut < len {
                    let token = s.substring_char(0, cut);
                    let rest = s.substring_char(cut + 1, len);
                    self.rest = Some(rest);
                    assert(self@ =~= old(self)@.drop_first());
                    Some(token)
                } else {
                    self.rest = None;
                    assert(self@ =~= old(self)@.drop_first());
                    Some(s)
                }
            },
        }
    }

    /// The number of tokens that have not been handed out yet, or
    /// `usize::MAX` where there are more than that.
    pub fn count(&self) -> (n: usize)
        ensures
            n == capped(self@.len()),
    {
        match self.rest {
            None => 0,
            Some(s) => {
                let mut n: usize = 1;
                for c in it: s.chars()
                    invariant
                        it.seq() == s@,
                        n == capped(split_dots(s@.take(it.index())).len()),
                {
                    proof {
                        lemma_split_extend(s@, it.index());
                    }
                    if c == '.' && n < usize::MAX {
                        n += 1;
                    }
                }
                assert(s@.take(s@.len() as int) =~= s@);
                n
            },
        }
    }
}

} // verus!
