//! Bindings: `let NAME = EXPRESSION`.

use crate::env::{spec_lookup, Env};
use crate::error::{Error, ErrorView};
use crate::expr::{
    eval_view, lemma_parse_expr_needs_number, lemma_parsers_leave_suffix, spec_parse_expr, Expr,
};
use crate::utils::{
    all_spaces, extract_ident, extract_whitespace, extract_whitespace_1, ident_run,
    is_ascii_letter, is_digit, is_ident_char, is_space, lemma_extract_whitespace_splits,
    lemma_primitives_leave_suffix, lemma_run_len_maximal, lemma_run_len_of_parts,
    lemma_suffix_of_suffix, lemma_tag_strips, spec_extract_ident, spec_extract_whitespace,
    spec_extract_whitespace_1, spec_tag, tag,
};
use crate::val::Val;
use vstd::prelude::*;

verus! {

/// A name and the expression whose value it is to be given.
#[derive(Debug, PartialEq, Eq)]
pub struct Binding {
    name: String,
    val: Expr,
}

/// The mathematical content of a [`Binding`].
pub struct BindingView {
    pub name: Seq<char>,
    pub val: Expr,
}

/// A name is an ASCII letter followed by letters and digits.
pub open spec fn is_identifier(name: Seq<char>) -> bool {
    &&& name.len() > 0
    &&& is_ascii_letter(name[0])
    &&& forall|i: int| 0 <= i < name.len() ==> is_ident_char(#[trigger] name[i])
}

/// The keyword that opens a binding.
pub open spec fn let_keyword() -> Seq<char> {
    seq!['l', 'e', 't']
}

/// The sign between the name and the expression.
pub open spec fn equals_sign() -> Seq<char> {
    seq!['=']
}

/// A binding and the rest: `let`, at least one space, a name, `=` and an
/// expression, with any number of spaces on either side of the `=`. The
/// first part that is not there decides the failure.
pub open spec fn spec_parse_binding(s: Seq<char>) -> Result<(BindingView, Seq<char>), ErrorView> {
    match spec_tag(let_keyword(), s) {
        Ok(after_let) => match spec_extract_whitespace_1(after_let) {
            Ok((_, at_name)) => match spec_extract_ident(at_name) {
                Ok((name, after_name)) => match spec_tag(
                    equals_sign(),
                    spec_extract_whitespace(after_name).1,
                ) {
                    Ok(after_equals) => match spec_parse_expr(
                        spec_extract_whitespace(after_equals).1,
                    ) {
                        Ok((val, rest)) => Ok((BindingView { name, val }, rest)),
                        Err(e) => Err(e),
                    },
                    Err(e) => Err(e),
                },
                Err(e) => Err(e),
            },
            Err(e) => Err(e),
        },
        Err(e) => Err(e),
    }
}

/// What evaluating a binding makes of an environment: the value of the
/// expression is stored under the name. Where the expression has no value,
/// there is no new environment.
pub open spec fn spec_eval_binding(binding: BindingView, bindings: Map<Seq<char>, Val>) -> Result<
    Map<Seq<char>, Val>,
    ErrorView,
> {
    match binding.val.spec_eval() {
        Ok(val) => Ok(bindings.insert(binding.name, val)),
        Err(e) => Err(e),
    }
}

/// What the result of parsing a binding says.
pub open spec fn binding_view(r: Result<(Binding, &str), Error>) -> Result<
    (BindingView, Seq<char>),
    ErrorView,
> {
    match r {
        Ok((binding, rest)) => Ok((binding@, rest@)),
        Err(e) => Err(e@),
    }
}

/// What is taken from the front of a text as a name is one.
pub proof fn lemma_extracted_ident_is_identifier(s: Seq<char>)
    requires
        spec_extract_ident(s) is Ok,
    ensures
        is_identifier(spec_extract_ident(s)->Ok_0.0),
{
    let p = |c: char| is_ident_char(c);
    lemma_run_len_maximal(s, p);
    let name = s.take(ident_run(s) as int);
    assert(p(s[0]));
    assert forall|i: int| 0 <= i < name.len() implies is_ident_char(#[trigger] name[i]) by {
        assert(p(s[i]));
    }
}

/// The name of every binding that is read is a name: it is not empty,
/// begins with an ASCII letter and holds letters and digits only.
pub proof fn lemma_parsed_binding_is_named(s: Seq<char>)
    requires
        spec_parse_binding(s) is Ok,
    ensures
        is_identifier(spec_parse_binding(s)->Ok_0.0.name),
{
    let after_let = spec_tag(let_keyword(), s)->Ok_0;
    let at_name = spec_extract_whitespace_1(after_let)->Ok_0.1;
    lemma_extracted_ident_is_identifier(at_name);
}

/// The grammar of a binding: `let`, spaces, a name, spaces, `=`, spaces, an
/// expression. Such a text is read as the binding of the name to the
/// expression, and what follows the expression is left. At least one space
/// must follow `let`; around the `=` there may be any number, or none. The
/// name ends where a character follows that cannot be part of one.
pub proof fn lemma_parse_binding_of_parts(
    gap: Seq<char>,
    name: Seq<char>,
    before: Seq<char>,
    after: Seq<char>,
    expr: Seq<char>,
)
    requires
        gap.len() > 0,
        all_spaces(gap),
        is_identifier(name),
        all_spaces(before),
        !is_ident_char((before + equals_sign())[0]),
        all_spaces(after),
        spec_parse_expr(expr) is Ok,
    ensures
        spec_parse_binding(let_keyword() + gap + name + before + equals_sign() + after + expr)
            == Ok::<_, ErrorView>(
            (
                BindingView { name, val: spec_parse_expr(expr)->Ok_0.0 },
                spec_parse_expr(expr)->Ok_0.1,
            ),
        ),
{
    let s = let_keyword() + gap + name + before + equals_sign() + after + expr;
    let after_equals = after + expr;
    let at_equals = equals_sign() + after_equals;
    let after_name = before + at_equals;
    let at_name = name + after_name;
    let after_let = gap + at_name;
    assert(s =~= let_keyword() + after_let);
    lemma_tag_strips(let_keyword(), after_let);

    assert(at_name[0] == name[0]);
    lemma_run_len_of_parts(gap, at_name, |c: char| is_space(c));

    assert(after_name[0] == (before + equals_sign())[0]);
    lemma_run_len_of_parts(name, after_name, |c: char| is_ident_char(c));

    assert(at_equals[0] == '=');
    lemma_extract_whitespace_splits(before, at_equals);
    lemma_tag_strips(equals_sign(), after_equals);

    lemma_parse_expr_needs_number(expr);
    assert(is_digit(expr[0])) by {
        lemma_run_len_maximal(expr, |c: char| is_digit(c));
    }
    assert(after_equals[0] == if after.len() > 0 {
        after[0]
    } else {
        expr[0]
    });
    lemma_extract_whitespace_splits(after, expr);
}

/// A binding is read from the front of its text, and what is left is an end
/// of the text, shorter than the text itself.
pub proof fn lemma_parse_binding_leaves_suffix(s: Seq<char>)
    ensures
        spec_parse_binding(s) matches Ok((_, rest)) ==> rest.is_suffix_of(s) && rest.len()
            < s.len(),
{
    if let Ok(after_let) = spec_tag(let_keyword(), s) {
        lemma_primitives_leave_suffix(s, let_keyword());
        if let Ok((_, at_name)) = spec_extract_whitespace_1(after_let) {
            lemma_primitives_leave_suffix(after_let, equals_sign());
            lemma_suffix_of_suffix(at_name, after_let, s);
            if let Ok((_, after_name)) = spec_extract_ident(at_name) {
                let at_equals = spec_extract_whitespace(after_name).1;
                lemma_primitives_leave_suffix(at_name, equals_sign());
                lemma_suffix_of_suffix(after_name, at_name, s);
                lemma_primitives_leave_suffix(after_name, equals_sign());
                lemma_suffix_of_suffix(at_equals, after_name, s);
                if let Ok(after_equals) = spec_tag(equals_sign(), at_equals) {
                    let at_expr = spec_extract_whitespace(after_equals).1;
                    lemma_primitives_leave_suffix(at_equals, equals_sign());
                    lemma_suffix_of_suffix(after_equals, at_equals, s);
                    lemma_primitives_leave_suffix(after_equals, equals_sign());
                    lemma_suffix_of_suffix(at_expr, after_equals, s);
                    if let Ok((_, rest)) = spec_parse_expr(at_expr) {
                        lemma_parsers_leave_suffix(at_expr);
                        lemma_suffix_of_suffix(rest, at_expr, s);
                    }
                }
            }
        }
    }
}

/// After a binding has been evaluated, its name is bound to the value of
/// its expression, and every other name to what it was bound to before.
pub proof fn lemma_eval_binding_then_lookup(
    binding: BindingView,
    bindings: Map<Seq<char>, Val>,
    other: Seq<char>,
)
    requires
        binding.val.spec_eval() is Ok,
        other != binding.name,
    ensures
        spec_eval_binding(binding, bindings) is Ok,
        spec_lookup(spec_eval_binding(binding, bindings)->Ok_0, binding.name)
            == binding.val.spec_eval(),
        spec_lookup(spec_eval_binding(binding, bindings)->Ok_0, other) == spec_lookup(
            bindings,
            other,
        ),
{
}

impl View for Binding {
    type V = BindingView;

    closed spec fn view(&self) -> BindingView {
        BindingView { name: self.name@, val: self.val }
    }
}

impl Binding {
    #[verifier::type_invariant]
    spec fn well_formed(self) -> bool {
        is_identifier(self.name@)
    }

    /// Reads a binding from the front of `s`.
    pub fn new(s: &str) -> (r: Result<(Binding, &str), Error>)
        ensures
            binding_view(r) == spec_parse_binding(s@),
    {
        proof {
            reveal_strlit("let");
            reveal_strlit("=");
            assert("let"@ =~= let_keyword());
            assert("="@ =~= equals_sign());
        }
        let s = tag("let", s)?;
        let (_, s) = extract_whitespace_1(s)?;

        let ghost at_name = s@;
        let (name, s) = extract_ident(s)?;
        let (_, s) = extract_whitespace(s);

        let s = tag("=", s)?;
        let (_, s) = extract_whitespace(s);

        let (val, s) = Expr::new(s)?;

        proof {
            lemma_extracted_ident_is_identifier(at_name);
        }
        Ok((Binding { name: name.to_string(), val }, s))
    }

    /// The name that is bound.
    pub fn name(&self) -> (name: &str)
        ensures
            name@ == self@.name,
            is_identifier(name@),
    {
        proof {
            use_type_invariant(self);
        }
        self.name.as_str()
    }

    /// The expression whose value the name is given.
    pub fn val(&self) -> (val: &Expr)
        ensures
            *val == self@.val,
    {
        &self.val
    }

    /// Evaluates the expression and stores its value under the name, in
    /// place of any value the name had. Where the expression has no value,
    /// the environment is left as it was.
    pub fn eval(&self, env: &mut Env) -> (r: Result<(), Error>)
        ensures
            match spec_eval_binding(self@, old(env)@) {
                Ok(bindings) => r is Ok && final(env)@ == bindings,
                Err(e) => eval_view(r) == Err::<(), _>(e) && final(env)@ == old(env)@,
            },
    {
        let val = self.val.eval()?;
        env.store_binding(self.name.clone(), val);
        Ok(())
    }
}

} // verus!
