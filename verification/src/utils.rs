//! Lexical primitives: each one splits the unread text into what it took
//! and what is left, or says what it was looking for.

use crate::error::{Error, ErrorView, Expected, ExpectedView};
use vstd::prelude::*;
use vstd::std_specs::iter::IteratorSpec;
use vstd::string::StringExecFns;

verus! {

/// The decimal digits `0` to `9`.
pub open spec fn is_digit(c: char) -> bool {
    '0' <= c <= '9'
}

/// The space character, the only one that counts as padding.
pub open spec fn is_space(c: char) -> bool {
    c == ' '
}

/// The letters `a` to `z` and `A` to `Z`.
pub open spec fn is_ascii_letter(c: char) -> bool {
    'a' <= c <= 'z' || 'A' <= c <= 'Z'
}

/// Whether Unicode classes `c` as alphabetic or numeric, as
/// `char::is_alphanumeric` tells it.
pub uninterp spec fn unicode_alphanumeric(c: char) -> bool;

/// `char::is_alphanumeric` of std: a function of the character alone, decided
/// by Unicode's tables. Nothing is claimed of it but that its answer is
/// [`unicode_alphanumeric`].
pub assume_specification[ char::is_alphanumeric ](c: char) -> (b: bool)
    ensures
        b == unicode_alphanumeric(c),
;

/// The characters that may follow the first one of a name: the ASCII
/// letters and digits, and whatever else Unicode classes as alphabetic or
/// numeric.
pub open spec fn is_ident_char(c: char) -> bool {
    is_ascii_letter(c) || is_digit(c) || unicode_alphanumeric(c)
}

/// Every character of `s` is a digit.
pub open spec fn all_digits(s: Seq<char>) -> bool {
    forall|i: int| 0 <= i < s.len() ==> is_digit(#[trigger] s[i])
}

/// Every character of `s` is a space.
pub open spec fn all_spaces(s: Seq<char>) -> bool {
    forall|i: int| 0 <= i < s.len() ==> is_space(#[trigger] s[i])
}

/// The number of leading characters of `s` that satisfy `p`.
pub open spec fn run_len(s: Seq<char>, p: spec_fn(char) -> bool) -> nat
    decreases s.len(),
{
    if s.len() > 0 && p(s[0]) {
        1 + run_len(s.drop_first(), p)
    } else {
        0
    }
}

/// The leading digits of `s`, counted.
pub open spec fn digit_run(s: Seq<char>) -> nat {
    run_len(s, |c: char| is_digit(c))
}

/// The leading spaces of `s`, counted.
pub open spec fn space_run(s: Seq<char>) -> nat {
    run_len(s, |c: char| is_space(c))
}

/// The leading name characters of `s`, counted.
pub open spec fn ident_run(s: Seq<char>) -> nat {
    run_len(s, |c: char| is_ident_char(c))
}

/// `s` cut after its first `n` characters.
pub open spec fn split_at(s: Seq<char>, n: nat) -> (Seq<char>, Seq<char>) {
    (s.take(n as int), s.skip(n as int))
}

/// A maximal run of digits and the rest; no digit at the front is a failure.
pub open spec fn spec_extract_digits(s: Seq<char>) -> Result<(Seq<char>, Seq<char>), ErrorView> {
    if digit_run(s) > 0 {
        Ok(split_at(s, digit_run(s)))
    } else {
        Err(ErrorView::Malformed(ExpectedView::Digits))
    }
}

/// A name and the rest; the text must begin with an ASCII letter.
pub open spec fn spec_extract_ident(s: Seq<char>) -> Result<(Seq<char>, Seq<char>), ErrorView> {
    if s.len() > 0 && is_ascii_letter(s[0]) {
        Ok(split_at(s, ident_run(s)))
    } else {
        Err(ErrorView::Malformed(ExpectedView::Identifier))
    }
}

/// A maximal run of spaces, possibly empty, and the rest.
pub open spec fn spec_extract_whitespace(s: Seq<char>) -> (Seq<char>, Seq<char>) {
    split_at(s, space_run(s))
}

/// A maximal run of spaces and the rest; no space at the front is a failure.
pub open spec fn spec_extract_whitespace_1(s: Seq<char>) -> Result<
    (Seq<char>, Seq<char>),
    ErrorView,
> {
    if space_run(s) > 0 {
        Ok(split_at(s, space_run(s)))
    } else {
        Err(ErrorView::Malformed(ExpectedView::Space))
    }
}

/// What follows `literal` at the front of `s`; a failure where `s` does not
/// begin with it.
pub open spec fn spec_tag(literal: Seq<char>, s: Seq<char>) -> Result<Seq<char>, ErrorView> {
    if literal.is_prefix_of(s) {
        Ok(s.skip(literal.len() as int))
    } else {
        Err(ErrorView::Malformed(ExpectedView::Literal(literal)))
    }
}

/// What the result of [`tag`] says, with the text left as a sequence.
pub open spec fn tag_view(r: Result<&str, Error>) -> Result<Seq<char>, ErrorView> {
    match r {
        Ok(rest) => Ok(rest@),
        Err(e) => Err(e@),
    }
}

/// What a scanning result says, with each piece of text as a sequence.
pub open spec fn split_view(r: Result<(&str, &str), Error>) -> Result<
    (Seq<char>, Seq<char>),
    ErrorView,
> {
    match r {
        Ok((taken, rest)) => Ok((taken@, rest@)),
        Err(e) => Err(e@),
    }
}

/// The run of `p` at the front of `s` lies within `s`, holds only characters
/// that satisfy `p`, and stops at the first one that does not.
pub proof fn lemma_run_len_maximal(s: Seq<char>, p: spec_fn(char) -> bool)
    ensures
        run_len(s, p) <= s.len(),
        forall|i: int| 0 <= i < run_len(s, p) ==> p(#[trigger] s[i]),
        run_len(s, p) < s.len() ==> !p(s[run_len(s, p) as int]),
    decreases s.len(),
{
    if s.len() > 0 && p(s[0]) {
        let t = s.drop_first();
        lemma_run_len_maximal(t, p);
        assert forall|i: int| 0 <= i < run_len(s, p) implies p(#[trigger] s[i]) by {
            if i > 0 {
                assert(s[i] == t[i - 1]);
            }
        }
        if run_len(s, p) < s.len() {
            assert(s[run_len(s, p) as int] == t[run_len(t, p) as int]);
        }
    }
}

/// A prefix of length `n` is the run of `p` at the front of `s` as soon as
/// every character in it satisfies `p` and the next one, if any, does not.
pub proof fn lemma_run_len_unique(s: Seq<char>, p: spec_fn(char) -> bool, n: nat)
    requires
        n <= s.len(),
        forall|i: int| 0 <= i < n ==> p(#[trigger] s[i]),
        n < s.len() ==> !p(s[n as int]),
    ensures
        run_len(s, p) == n,
    decreases n,
{
    if n > 0 {
        let t = s.drop_first();
        assert forall|i: int| 0 <= i < n - 1 implies p(#[trigger] t[i]) by {
            assert(t[i] == s[i + 1]);
        }
        lemma_run_len_unique(t, p, (n - 1) as nat);
    }
}

/// Where every character of `run` satisfies `p` and `rest` does not begin
/// with one that does, the run of `p` at the front of `run + rest` is `run`,
/// and cutting there gives back the two.
pub proof fn lemma_run_len_of_parts(run: Seq<char>, rest: Seq<char>, p: spec_fn(char) -> bool)
    requires
        forall|i: int| 0 <= i < run.len() ==> p(#[trigger] run[i]),
        rest.len() > 0 ==> !p(rest[0]),
    ensures
        run_len(run + rest, p) == run.len(),
        split_at(run + rest, run.len()) == (run, rest),
{
    let s = run + rest;
    assert forall|i: int| 0 <= i < run.len() implies p(#[trigger] s[i]) by {
        assert(s[i] == run[i]);
    }
    if rest.len() > 0 {
        assert(s[run.len() as int] == rest[0]);
    }
    lemma_run_len_unique(s, p, run.len());
    assert(s.take(run.len() as int) =~= run);
    assert(s.skip(run.len() as int) =~= rest);
}

/// Text made of a non-empty run of digits `d` and a rest `r` that does not
/// begin with a digit is split into exactly `d` and `r`. With an empty `r`
/// this is the text of digits alone, and nothing is left.
pub proof fn lemma_extract_digits_splits(d: Seq<char>, r: Seq<char>)
    requires
        d.len() > 0,
        all_digits(d),
        r.len() > 0 ==> !is_digit(r[0]),
    ensures
        spec_extract_digits(d + r) == Ok::<_, ErrorView>((d, r)),
{
    lemma_run_len_of_parts(d, r, |c: char| is_digit(c));
}

/// Text of digits alone is taken whole, and nothing is left.
pub proof fn lemma_extract_digits_takes_all(d: Seq<char>)
    requires
        d.len() > 0,
        all_digits(d),
    ensures
        spec_extract_digits(d) == Ok::<_, ErrorView>((d, Seq::<char>::empty())),
{
    assert(d + Seq::<char>::empty() =~= d);
    lemma_extract_digits_splits(d, Seq::<char>::empty());
}

/// Text that is empty or begins with anything but a digit has no digits to
/// give.
pub proof fn lemma_extract_digits_rejects(s: Seq<char>)
    requires
        s.len() == 0 || !is_digit(s[0]),
    ensures
        spec_extract_digits(s) == Err::<(Seq<char>, Seq<char>), _>(
            ErrorView::Malformed(ExpectedView::Digits),
        ),
{
}

/// Text that is empty or begins with anything but an ASCII letter has no
/// name to give.
pub proof fn lemma_extract_ident_rejects(s: Seq<char>)
    requires
        s.len() == 0 || !is_ascii_letter(s[0]),
    ensures
        spec_extract_ident(s) == Err::<(Seq<char>, Seq<char>), _>(
            ErrorView::Malformed(ExpectedView::Identifier),
        ),
{
}

/// No name begins with a digit.
pub proof fn lemma_extract_ident_rejects_digit(s: Seq<char>)
    requires
        s.len() > 0,
        is_digit(s[0]),
    ensures
        spec_extract_ident(s) == Err::<(Seq<char>, Seq<char>), _>(
            ErrorView::Malformed(ExpectedView::Identifier),
        ),
{
}

/// Spaces at the front are taken whole, whatever their number, and the text
/// that follows them is left untouched.
pub proof fn lemma_extract_whitespace_splits(spaces: Seq<char>, rest: Seq<char>)
    requires
        all_spaces(spaces),
        rest.len() > 0 ==> !is_space(rest[0]),
    ensures
        spec_extract_whitespace(spaces + rest) == (spaces, rest),
{
    lemma_run_len_of_parts(spaces, rest, |c: char| is_space(c));
}

/// A literal at the front of a text is stripped, and what follows is left.
pub proof fn lemma_tag_strips(literal: Seq<char>, rest: Seq<char>)
    ensures
        spec_tag(literal, literal + rest) == Ok::<_, ErrorView>(rest),
{
    let s = literal + rest;
    assert(s.subrange(0, literal.len() as int) =~= literal);
    assert(s.skip(literal.len() as int) =~= rest);
}

/// Cutting a text after the run of `p` at its front gives the run, whose
/// characters all satisfy `p`, and a rest that does not begin with one that
/// does; the two make up the text.
pub proof fn lemma_split_at_run(s: Seq<char>, p: spec_fn(char) -> bool)
    ensures
        split_at(s, run_len(s, p)).0 + split_at(s, run_len(s, p)).1 == s,
        split_at(s, run_len(s, p)).0.len() == run_len(s, p),
        forall|i: int|
            0 <= i < run_len(s, p) ==> p(#[trigger] split_at(s, run_len(s, p)).0[i]),
        split_at(s, run_len(s, p)).1.len() > 0 ==> !p(split_at(s, run_len(s, p)).1[0]),
{
    lemma_run_len_maximal(s, p);
    lemma_split_at_joins(s, run_len(s, p));
    let (run, rest) = split_at(s, run_len(s, p));
    assert forall|i: int| 0 <= i < run_len(s, p) implies p(#[trigger] run[i]) by {
        assert(run[i] == s[i]);
    }
    if rest.len() > 0 {
        assert(rest[0] == s[run_len(s, p) as int]);
    }
}

/// What a primitive takes and what it leaves make up the text it was given.
pub proof fn lemma_split_at_joins(s: Seq<char>, n: nat)
    requires
        n <= s.len(),
    ensures
        split_at(s, n).0 + split_at(s, n).1 == s,
        split_at(s, n).0.len() == n,
        split_at(s, n).1.is_suffix_of(s),
{
    assert(s.take(n as int) + s.skip(n as int) =~= s);
    lemma_skip_is_suffix(s, n);
}

/// What is left of a text after its first `n` characters is its end.
pub proof fn lemma_skip_is_suffix(s: Seq<char>, n: nat)
    requires
        n <= s.len(),
    ensures
        s.skip(n as int).is_suffix_of(s),
{
    assert(s.skip(n as int) =~= s.subrange(s.len() - (s.len() - n), s.len() as int));
}

/// The end of the end of a text is an end of the text.
pub proof fn lemma_suffix_of_suffix(a: Seq<char>, b: Seq<char>, c: Seq<char>)
    requires
        a.is_suffix_of(b),
        b.is_suffix_of(c),
    ensures
        a.is_suffix_of(c),
{
    assert(a =~= c.subrange(c.len() - a.len(), c.len() as int)) by {
        assert forall|i: int| 0 <= i < a.len() implies a[i] == c[c.len() - a.len() + i] by {
            assert(a[i] == b.subrange(b.len() - a.len(), b.len() as int)[i]);
            assert(b[b.len() - a.len() + i] == c.subrange(c.len() - b.len(), c.len() as int)[b.len()
                - a.len() + i]);
        }
    }
}

/// Each primitive leaves an end of the text it was given: nothing is read
/// out of order, and nothing is made up.
pub proof fn lemma_primitives_leave_suffix(s: Seq<char>, literal: Seq<char>)
    ensures
        spec_extract_digits(s) matches Ok((_, rest)) ==> rest.is_suffix_of(s) && rest.len()
            < s.len(),
        spec_extract_ident(s) matches Ok((_, rest)) ==> rest.is_suffix_of(s) && rest.len()
            < s.len(),
        spec_extract_whitespace_1(s) matches Ok((_, rest)) ==> rest.is_suffix_of(s) && rest.len()
            < s.len(),
        spec_extract_whitespace(s).1.is_suffix_of(s),
        spec_tag(literal, s) matches Ok(rest) ==> rest.is_suffix_of(s),
{
    lemma_run_len_maximal(s, |c: char| is_digit(c));
    lemma_run_len_maximal(s, |c: char| is_space(c));
    lemma_run_len_maximal(s, |c: char| is_ident_char(c));
    lemma_skip_is_suffix(s, digit_run(s));
    lemma_skip_is_suffix(s, space_run(s));
    lemma_skip_is_suffix(s, ident_run(s));
    if literal.is_prefix_of(s) {
        lemma_skip_is_suffix(s, literal.len());
    }
}

/// A text begins with a literal of one character exactly when that character
/// comes first in it.
pub proof fn lemma_tag_one_char(c: char, s: Seq<char>)
    ensures
        seq![c].is_prefix_of(s) <==> s.len() > 0 && s[0] == c,
{
    if s.len() > 0 {
        assert(s.subrange(0, 1)[0] == s[0]);
        if s[0] == c {
            assert(seq![c] =~= s.subrange(0, 1));
        }
    }
}

fn accepts_digit(c: char) -> (b: bool)
    ensures
        b == is_digit(c),
{
    '0' <= c && c <= '9'
}

fn accepts_space(c: char) -> (b: bool)
    ensures
        b == is_space(c),
{
    c == ' '
}

fn accepts_ascii_letter(c: char) -> (b: bool)
    ensures
        b == is_ascii_letter(c),
{
    ('a' <= c && c <= 'z') || ('A' <= c && c <= 'Z')
}

fn accepts_ident_char(c: char) -> (b: bool)
    ensures
        b == is_ident_char(c),
{
    accepts_ascii_letter(c) || accepts_digit(c) || c.is_alphanumeric()
}

/// Cuts `s` after the longest prefix whose characters `accept` takes; `p` is
/// what `accept` computes.
fn take_while<'a, F: Fn(char) -> bool>(
    accept: F,
    s: &'a str,
    Ghost(p): Ghost<spec_fn(char) -> bool>,
) -> (r: (&'a str, &'a str))
    requires
        forall|c: char| call_requires(accept, (c,)),
        forall|c: char, b: bool| call_ensures(accept, (c,), b) ==> b == p(c),
    ensures
        (r.0@, r.1@) == split_at(s@, run_len(s@, p)),
{
    broadcast use vstd::string::group_string_axioms;

    let len = s.unicode_len();
    let mut chars = s.chars();
    let mut n: usize = 0;
    loop
        invariant_except_break
            chars.remaining() == s@.skip(n as int),
            chars.obeys_prophetic_iter_laws(),
        invariant
            n <= len,
            len == s@.len(),
            forall|c: char| call_requires(accept, (c,)),
            forall|c: char, b: bool| call_ensures(accept, (c,), b) ==> b == p(c),
            forall|i: int| 0 <= i < n ==> p(#[trigger] s@[i]),
        ensures
            n < len ==> !p(s@[n as int]),
        decreases len - n,
    {
        match chars.next() {
            Some(c) => {
                if accept(c) {
                    n = n + 1;
                } else {
                    break;
                }
            },
            None => {
                break;
            },
        }
    }
    proof {
        lemma_run_len_unique(s@, p, n as nat);
    }
    (s.substring_char(0, n), s.substring_char(n, len))
}

/// As [`take_while`], but an empty prefix is the failure `error`.
fn take_while_1<'a, F: Fn(char) -> bool>(
    accept: F,
    s: &'a str,
    error: Error,
    Ghost(p): Ghost<spec_fn(char) -> bool>,
) -> (r: Result<(&'a str, &'a str), Error>)
    requires
        forall|c: char| call_requires(accept, (c,)),
        forall|c: char, b: bool| call_ensures(accept, (c,), b) ==> b == p(c),
    ensures
        split_view(r) == if run_len(s@, p) > 0 {
            Ok(split_at(s@, run_len(s@, p)))
        } else {
            Err(error@)
        },
{
    let (extracted, remainder) = take_while(accept, s, Ghost(p));
    proof {
        lemma_run_len_maximal(s@, p);
    }
    if extracted.is_empty() {
        Err(error)
    } else {
        Ok((extracted, remainder))
    }
}

/// Takes the digits at the front of `s`. There must be at least one.
pub fn extract_digits(s: &str) -> (r: Result<(&str, &str), Error>)
    ensures
        split_view(r) == spec_extract_digits(s@),
{
    take_while_1(
        accepts_digit,
        s,
        Error::Malformed(Expected::Digits),
        Ghost(|c: char| is_digit(c)),
    )
}

/// Takes the name at the front of `s`: an ASCII letter, then every letter
/// and digit that follows.
pub fn extract_ident(s: &str) -> (r: Result<(&str, &str), Error>)
    ensures
        split_view(r) == spec_extract_ident(s@),
{
    broadcast use vstd::string::group_string_axioms;

    let mut chars = s.chars();
    let input_starts_with_alphabetic = match chars.next() {
        Some(c) => accepts_ascii_letter(c),
        None => false,
    };
    if input_starts_with_alphabetic {
        Ok(take_while(accepts_ident_char, s, Ghost(|c: char| is_ident_char(c))))
    } else {
        Err(Error::Malformed(Expected::Identifier))
    }
}

/// Takes the spaces at the front of `s`, however many there are.
pub fn extract_whitespace(s: &str) -> (r: (&str, &str))
    ensures
        (r.0@, r.1@) == spec_extract_whitespace(s@),
{
    take_while(accepts_space, s, Ghost(|c: char| is_space(c)))
}

/// Takes the spaces at the front of `s`. There must be at least one.
pub fn extract_whitespace_1(s: &str) -> (r: Result<(&str, &str), Error>)
    ensures
        split_view(r) == spec_extract_whitespace_1(s@),
{
    take_while_1(
        accepts_space,
        s,
        Error::Malformed(Expected::Space),
        Ghost(|c: char| is_space(c)),
    )
}

/// Strips `starting_text` from the front of `s`, which must begin with it.
pub fn tag<'a, 'b>(starting_text: &'a str, s: &'b str) -> (r: Result<&'b str, Error>)
    ensures
        tag_view(r) == spec_tag(starting_text@, s@),
{
    broadcast use vstd::string::group_string_axioms;

    let wanted = starting_text.unicode_len();
    let len = s.unicode_len();
    let mut expected = starting_text.chars();
    let mut found = s.chars();
    let mut n: usize = 0;
    let mut matched = wanted <= len;
    while matched && n < wanted
        invariant
            wanted == starting_text@.len(),
            len == s@.len(),
            matched ==> n <= wanted <= len,
            matched ==> expected.remaining() == starting_text@.skip(n as int),
            matched ==> found.remaining() == s@.skip(n as int),
            expected.obeys_prophetic_iter_laws(),
            found.obeys_prophetic_iter_laws(),
            matched ==> forall|i: int| 0 <= i < n ==> starting_text@[i] == s@[i],
            !matched ==> !starting_text@.is_prefix_of(s@),
        decreases (if matched { 1 + wanted - n } else { 0 }),
    {
        let a = expected.next();
        let b = found.next();
        if a == b {
            n = n + 1;
        } else {
            matched = false;
            assert(s@.subrange(0, wanted as int)[n as int] == s@[n as int]);
        }
    }
    if matched {
        assert(starting_text@ =~= s@.subrange(0, wanted as int));
        Ok(s.substring_char(wanted, len))
    } else {
        Err(Error::Malformed(Expected::Literal(String::from_str(starting_text))))
    }
}

} // verus!
