//! The values of expressions: variables are typed and bound, `evalexpr` evaluates, and the
//! result is written out as text.
use vstd::prelude::*;
use vstd::string::*;
use evalexpr::ContextWithMutableVariables;
use evalexpr::FloatType;
use evalexpr::HashMapContext;
use evalexpr::Value;
use crate::guard::{is_guarded, is_guarded_expression};
use crate::number::{
    decimal_text, i64_to_text, int_literal, parse_i64, parse_places, places_literal,
};
use crate::table::pairs;

verus! {

#[verifier::external_type_specification]
#[verifier::external_body]
pub struct ExHashMapContext(HashMapContext);

/// The value of a variable, typed. A floating-point number is held by its 64 bits.
#[derive(Clone, Debug, PartialEq, Eq)]
pub enum Binding {
    Int(i64),
    Float(u64),
    Text(String),
}

/// The value of a variable as a mathematical value. `Other` stands for a value that is no
/// integer, float or text: a truth value, a tuple or the empty value, which only an
/// evaluation can give to a variable.
pub enum BindingView {
    Int(i64),
    Float(u64),
    Text(Seq<char>),
    Other,
}

impl View for Binding {
    type V = BindingView;

    open spec fn view(&self) -> BindingView {
        match self {
            Binding::Int(i) => BindingView::Int(*i),
            Binding::Float(bits) => BindingView::Float(*bits),
            Binding::Text(text) => BindingView::Text(text@),
        }
    }
}

/// The result of an expression. A floating-point number is held by its 64 bits; a string,
/// a truth value or a tuple by the text that `evalexpr` writes for it.
#[derive(Clone, Debug, PartialEq, Eq)]
pub enum Scalar {
    Int(i64),
    Float(u64),
    Empty,
    Other(String),
}

/// A result as a mathematical value.
pub enum ScalarView {
    Int(i64),
    Float(u64),
    Empty,
    Other(Seq<char>),
}

impl View for Scalar {
    type V = ScalarView;

    open spec fn view(&self) -> ScalarView {
        match self {
            Scalar::Int(i) => ScalarView::Int(*i),
            Scalar::Float(bits) => ScalarView::Float(*bits),
            Scalar::Empty => ScalarView::Empty,
            Scalar::Other(text) => ScalarView::Other(text@),
        }
    }
}

/// What went only nearly right while a value was written out.
#[derive(Clone, Copy, Debug, PartialEq, Eq, Structural)]
pub enum Warning {
    /// The `decimal_places` option is no number of fraction digits.
    DecimalPlacesNotParsable,
    /// The expression has the empty value.
    EmptyValue,
}

/// The variables that a context holds, with their values; a value that is no integer, float
/// or text stands as `Other`.
pub uninterp spec fn context_values(context: HashMapContext) -> Map<Seq<char>, BindingView>;

/// What `evalexpr` makes of `expression` where the variables have the given values, each an
/// integer, a float or a text: its result, or the message of its error.
pub uninterp spec fn expression_value(
    expression: Seq<char>,
    values: Map<Seq<char>, BindingView>,
) -> Result<ScalarView, Seq<char>>;

/// The bits of the floating-point number that the text writes, as `str::parse` reads it.
pub uninterp spec fn float_literal(text: Seq<char>) -> Option<u64>;

/// The bits of the floating-point number that `evalexpr` widens an integer to.
pub uninterp spec fn float_of_int(value: i64) -> u64;

/// A floating-point number, given by its bits, as `Display` writes it.
pub uninterp spec fn float_text(bits: u64) -> Seq<char>;

/// A floating-point number, given by its bits, written with `places` fraction digits.
pub uninterp spec fn fixed_text(bits: u64, places: u16) -> Seq<char>;

/// No variable at all.
pub open spec fn no_values() -> Map<Seq<char>, BindingView> {
    Map::empty()
}

/// The outcome of an evaluation as a mathematical value.
pub open spec fn outcome_view(outcome: Result<Scalar, String>) -> Result<ScalarView, Seq<char>> {
    match outcome {
        Ok(scalar) => Ok(scalar@),
        Err(message) => Err(message@),
    }
}

/// Whether every variable has an integer, a float or a text as its value.
pub open spec fn all_typed(values: Map<Seq<char>, BindingView>) -> bool {
    forall|name: Seq<char>| values.contains_key(name) ==> !(#[trigger] values[name] is Other)
}

/// Whether two values are of one type, each an integer, a float or a text.
pub open spec fn same_type(a: BindingView, b: BindingView) -> bool {
    match (a, b) {
        (BindingView::Int(_), BindingView::Int(_)) => true,
        (BindingView::Float(_), BindingView::Float(_)) => true,
        (BindingView::Text(_), BindingView::Text(_)) => true,
        _ => false,
    }
}

/// Whether a context takes `value` for `name`: the name is new, or has a value of that type.
pub open spec fn can_bind(
    values: Map<Seq<char>, BindingView>,
    name: Seq<char>,
    value: BindingView,
) -> bool {
    values.contains_key(name) ==> same_type(values[name], value)
}

/// `evalexpr::HashMapContext::new`: a context without variables.
#[verifier::external_body]
pub(crate) fn new_context() -> (context: HashMapContext)
    ensures
        context_values(context) == no_values(),
{
    HashMapContext::new()
}

/// `evalexpr::HashMapContext::set_value`: gives the variable the value, unless it has one of
/// another type; then the context stays as it is.
#[verifier::external_body]
pub(crate) fn bind(context: &mut HashMapContext, name: &str, value: &Binding) -> (bound: bool)
    ensures
        bound == can_bind(context_values(*old(context)), name@, value@),
        bound ==> context_values(*final(context)) == context_values(*old(context)).insert(
            name@,
            value@,
        ),
        !bound ==> context_values(*final(context)) == context_values(*old(context)),
{
    let value = match value {
        Binding::Int(i) => Value::Int(*i),
        Binding::Float(bits) => Value::Float(FloatType::from_bits(*bits)),
        Binding::Text(text) => Value::String(text.clone()),
    };
    context.set_value(name.to_string(), value).is_ok()
}

/// `evalexpr::eval_with_context_mut`: the value of the expression over the variables of the
/// context, or the message of the error. An integer, a float and the empty value come back
/// as they are, any other value as the text that `evalexpr` writes for it. The context is
/// used up: what the evaluation wrote into it is not read. Left out are the expressions
/// that can call a function which does not answer for every argument.
#[verifier::external_body]
pub(crate) fn evaluate(expression: &str, context: HashMapContext) -> (result: Result<
    Scalar,
    String,
>)
    requires
        is_guarded(expression@),
        all_typed(context_values(context)),
    ensures
        outcome_view(result) == expression_value(expression@, context_values(context)),
{
    let mut context = context;
    match evalexpr::eval_with_context_mut(expression, &mut context) {
        Ok(Value::Int(i)) => Ok(Scalar::Int(i)),
        Ok(Value::Float(f)) => Ok(Scalar::Float(f.to_bits())),
        Ok(Value::Empty) => Ok(Scalar::Empty),
        Ok(other) => Ok(Scalar::Other(other.to_string())),
        Err(error) => Err(error.to_string()),
    }
}

/// `str::parse` to a 64-bit float: the bits of the number that the text writes, where it
/// writes one.
#[verifier::external_body]
pub(crate) fn parse_float(text: &str) -> (bits: Option<u64>)
    ensures
        bits == float_literal(text@),
{
    text.parse::<FloatType>().ok().map(FloatType::to_bits)
}

/// `evalexpr::Value::as_number` on an integer: the float that it is widened to, in bits.
#[verifier::external_body]
pub(crate) fn int_to_float(value: i64) -> (bits: u64)
    ensures
        bits == float_of_int(value),
{
    match Value::Int(value).as_number() {
        Ok(number) => number.to_bits(),
        Err(_) => 0,
    }
}

/// `to_string` of a 64-bit float, given by its bits.
#[verifier::external_body]
pub(crate) fn float_to_text(bits: u64) -> (text: String)
    ensures
        text@ == float_text(bits),
{
    FloatType::from_bits(bits).to_string()
}

/// `format!` of a 64-bit float, given by its bits, with a precision of `places`.
#[verifier::external_body]
pub(crate) fn float_to_fixed(bits: u64, places: u16) -> (text: String)
    ensures
        text@ == fixed_text(bits, places),
{
    format!("{:.1$}", FloatType::from_bits(bits), usize::from(places))
}

/// The typed value of a variable's text: an integer where the text writes one, else a
/// float where it writes one, else the text itself.
pub open spec fn typed(text: Seq<char>) -> BindingView {
    match int_literal(text) {
        Some(i) => BindingView::Int(i),
        None => match float_literal(text) {
            Some(bits) => BindingView::Float(bits),
            None => BindingView::Text(text),
        },
    }
}

/// Types the text of a variable.
pub fn typed_binding(text: &String) -> (binding: Binding)
    ensures
        binding@ == typed(text@),
{
    match parse_i64(text.as_str()) {
        Some(i) => Binding::Int(i),
        None => match parse_float(text.as_str()) {
            Some(bits) => Binding::Float(bits),
            None => Binding::Text(text.clone()),
        },
    }
}

/// The variables bound one after the other, each typed by its text; none where one of them
/// is refused.
pub open spec fn bound_values(variables: Seq<(Seq<char>, Seq<char>)>) -> Option<
    Map<Seq<char>, BindingView>,
>
    decreases variables.len(),
{
    if variables.len() == 0 {
        Some(Map::empty())
    } else {
        match bound_values(variables.drop_last()) {
            Some(values) => {
                let (name, text) = variables.last();
                if can_bind(values, name, typed(text)) {
                    Some(values.insert(name, typed(text)))
                } else {
                    None
                }
            },
            None => None,
        }
    }
}

/// A text without the double quotes around it, where it has one at each end.
pub open spec fn unquoted(text: Seq<char>) -> Seq<char> {
    if text.len() >= 2 && text[0] == '"' && text.last() == '"' {
        text.subrange(1, text.len() - 1)
    } else {
        text
    }
}

/// A number written with the fraction digits that `places` asks for; the text of `places`
/// itself, with a warning, where that is no number of digits.
pub open spec fn with_places(bits: u64, places: Seq<char>) -> (Seq<char>, Option<Warning>) {
    match places_literal(places) {
        Some(n) => (fixed_text(bits, n), None),
        None => (places, Some(Warning::DecimalPlacesNotParsable)),
    }
}

/// A result as text, and the warning that writing it gave.
pub open spec fn rendered(scalar: ScalarView, places: Option<Seq<char>>) -> (
    Seq<char>,
    Option<Warning>,
) {
    match scalar {
        ScalarView::Float(bits) => match places {
            Some(p) => with_places(bits, p),
            None => (float_text(bits), None),
        },
        ScalarView::Int(i) => match places {
            Some(p) => with_places(float_of_int(i), p),
            None => (decimal_text(i as int), None),
        },
        ScalarView::Empty => (Seq::empty(), Some(Warning::EmptyValue)),
        ScalarView::Other(text) => (unquoted(text), None),
    }
}

/// The value of `expression` over `variables`, as text: the variables are typed and bound,
/// the expression is evaluated and the result written out. The error is the message of
/// `evalexpr`. An expression that is refused before it is evaluated is an error too, and
/// so is one variable bound twice with values of two types.
pub open spec fn evaluated(
    expression: Seq<char>,
    variables: Seq<(Seq<char>, Seq<char>)>,
    places: Option<Seq<char>>,
) -> Result<(Seq<char>, Option<Warning>), Seq<char>> {
    if !is_guarded(expression) {
        Err("the expression calls a function that is not evaluated"@)
    } else {
        match bound_values(variables) {
            Some(values) => match expression_value(expression, values) {
                Ok(scalar) => Ok(rendered(scalar, places)),
                Err(message) => Err(message),
            },
            None => Err("a variable has values of two types"@),
        }
    }
}

/// Variables that were bound one after the other all have an integer, a float or a text.
pub proof fn lemma_bound_values_typed(variables: Seq<(Seq<char>, Seq<char>)>)
    ensures
        bound_values(variables) is Some ==> all_typed(bound_values(variables)->0),
    decreases variables.len(),
{
    if variables.len() > 0 {
        lemma_bound_values_typed(variables.drop_last());
    }
}

/// Removes one pair of double quotes from around a text.
pub fn strip_quotes(text: String) -> (stripped: String)
    ensures
        stripped@ == unquoted(text@),
{
    let length = text.as_str().unicode_len();
    if length >= 2 && text.as_str().get_char(0) == '"' && text.as_str().get_char(length - 1)
        == '"' {
        text.as_str().substring_char(1, length - 1).to_owned()
    } else {
        text
    }
}

fn render_with_places(bits: u64, places: &String) -> (result: (String, Option<Warning>))
    ensures
        (result.0@, result.1) == with_places(bits, places@),
{
    match parse_places(places.as_str()) {
        Some(n) => (float_to_fixed(bits, n), None),
        None => (places.clone(), Some(Warning::DecimalPlacesNotParsable)),
    }
}

/// Writes a result out as text.
pub fn render(scalar: Scalar, places: Option<&String>) -> (result: (String, Option<Warning>))
    ensures
        (result.0@, result.1) == rendered(
            scalar@,
            match places {
                Some(p) => Some(p@),
                None => None,
            },
        ),
{
    match scalar {
        Scalar::Float(bits) => match places {
            Some(p) => render_with_places(bits, p),
            None => (float_to_text(bits), None),
        },
        Scalar::Int(i) => match places {
            Some(p) => render_with_places(int_to_float(i), p),
            None => (i64_to_text(i), None),
        },
        Scalar::Empty => (String::new(), Some(Warning::EmptyValue)),
        Scalar::Other(text) => (strip_quotes(text), None),
    }
}

/// Evaluates `expression` over `variables` and writes the result out.
pub fn evaluate_text(
    expression: &String,
    variables: &Vec<(String, String)>,
    places: Option<&String>,
) -> (result: Result<(String, Option<Warning>), String>)
    ensures
        match result {
            Ok(value) => evaluated(
                expression@,
                pairs(variables@),
                match places {
                    Some(p) => Some(p@),
                    None => None,
                },
            ) == Ok::<(Seq<char>, Option<Warning>), Seq<char>>((value.0@, value.1)),
            Err(message) => evaluated(
                expression@,
                pairs(variables@),
                match places {
                    Some(p) => Some(p@),
                    None => None,
                },
            ) == Err::<(Seq<char>, Option<Warning>), Seq<char>>(message@),
        },
{
    if !is_guarded_expression(expression.as_str()) {
        return Err("the expression calls a function that is not evaluated".to_owned());
    }
    let mut context = new_context();
    let mut i: usize = 0;
    proof {
        assert(pairs(variables@).take(0) =~= Seq::<(Seq<char>, Seq<char>)>::empty());
    }
    while i < variables.len()
        invariant
            i <= variables.len(),
            is_guarded(expression@),
            bound_values(pairs(variables@).take(i as int)) == Some(context_values(context)),
        decreases variables.len() - i,
    {
        let binding = typed_binding(&variables[i].1);
        proof {
            assert(pairs(variables@).take(i + 1).drop_last() =~= pairs(variables@).take(i as int));
            assert(pairs(variables@).take(i + 1).last() == (
                variables@[i as int].0@,
                variables@[i as int].1@,
            ));
        }
        let bound = bind(&mut context, variables[i].0.as_str(), &binding);
        if !bound {
            proof {
                lemma_refused_later(pairs(variables@), i + 1);
            }
            return Err("a variable has values of two types".to_owned());
        }
        i += 1;
    }
    proof {
        assert(pairs(variables@).take(variables.len() as int) =~= pairs(variables@));
    }
    proof {
        lemma_bound_values_typed(pairs(variables@));
    }
    match evaluate(expression.as_str(), context) {
        Ok(scalar) => Ok(render(scalar, places)),
        Err(message) => Err(message),
    }
}

/// Once a variable is refused, the whole list is.
pub proof fn lemma_refused_later(variables: Seq<(Seq<char>, Seq<char>)>, count: int)
    requires
        0 <= count <= variables.len(),
        bound_values(variables.take(count)) is None,
    ensures
        bound_values(variables) is None,
    decreases variables.len() - count,
{
    if count < variables.len() {
        assert(variables.take(count + 1).drop_last() =~= variables.take(count));
        lemma_refused_later(variables, count + 1);
    } else {
        assert(variables.take(count) =~= variables);
    }
}

} // verus!
