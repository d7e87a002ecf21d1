//! Pipelines: a filter expression and the sink that its matches go to.

use crate::error::CompileError;
use crate::output::OutputType;
use crate::types::{FieldValues, LineView, RequestLogLine};
use vstd::prelude::*;
use wirefilter::{ExecutionContext, Scheme, Type};

verus! {

/// The name by which expressions speak of a line's status code, a number.
pub const STATUS_CODE_FIELD: &'static str = "elb_status_code";

/// The name by which expressions speak of a line's user agent, a text.
pub const USER_AGENT_FIELD: &'static str = "user_agent";

/// The name by which expressions speak of a line's target group, a text.
pub const TARGET_GROUP_FIELD: &'static str = "target_group_arn";

/// The engine's `Scheme`: the fields that expressions can speak of. Nothing
/// is known of one but what the functions below say of it.
#[verifier::external_type_specification]
#[verifier::external_body]
pub struct ExScheme(wirefilter::Scheme);

/// The engine's `FilterAst`: an expression that was parsed.
#[verifier::external_type_specification]
#[verifier::external_body]
pub struct ExFilterAst<'s>(wirefilter::FilterAst<'s>);

/// Whether no two of the three names are the same.
pub open spec fn are_distinct(a: Seq<char>, b: Seq<char>, c: Seq<char>) -> bool {
    a != b && a != c && b != c
}

/// The names of a number field and of two text fields, in this order.
pub open spec fn fields_in_order(
    number_field: Seq<char>,
    first_text_field: Seq<char>,
    second_text_field: Seq<char>,
) -> Seq<Seq<char>> {
    seq![number_field, first_text_field, second_text_field]
}

/// The names of the fields of a scheme of one number field and two text
/// fields, in this order.
pub uninterp spec fn scheme_fields(scheme: wirefilter::Scheme) -> Seq<Seq<char>>;

/// Whether `text` is an expression over one number field and two text
/// fields of the given names.
pub uninterp spec fn expression_parses(text: Seq<char>, fields: Seq<Seq<char>>) -> bool;

/// Whether the expression `text` holds of the given values of its fields.
pub uninterp spec fn expression_holds(
    text: Seq<char>,
    fields: Seq<Seq<char>>,
    number: int,
    first_text: Seq<char>,
    second_text: Seq<char>,
) -> bool;

/// The text that a parsed expression was parsed from.
pub uninterp spec fn filter_source(ast: wirefilter::FilterAst) -> Seq<char>;

/// Whether the expression was parsed against this very scheme.
pub uninterp spec fn parsed_against(ast: wirefilter::FilterAst, scheme: wirefilter::Scheme) -> bool;

/// `Scheme::try_from_iter` on a number field and two text fields of the
/// given names. It refuses a name that it has seen before, and nothing else.
#[verifier::external_body]
fn build_scheme(
    number_field: &str,
    first_text_field: &str,
    second_text_field: &str,
) -> (res: Option<wirefilter::Scheme>)
    ensures
        res is Some <==> are_distinct(number_field@, first_text_field@, second_text_field@),
        res matches Some(scheme) ==> scheme_fields(scheme) == fields_in_order(
            number_field@,
            first_text_field@,
            second_text_field@,
        ),
{
    let fields = [
        (number_field.to_owned(), Type::Int),
        (first_text_field.to_owned(), Type::Bytes),
        (second_text_field.to_owned(), Type::Bytes),
    ];
    Scheme::try_from_iter(fields).ok()
}

/// `Scheme::parse`: the expression parsed, or the parser's description of
/// what is wrong with it. Which texts are expressions is not said here: it
/// is only given the name `expression_parses`.
#[verifier::external_body]
fn parse_filter<'s>(scheme: &'s wirefilter::Scheme, text: &str) -> (res: Result<
    wirefilter::FilterAst<'s>,
    String,
>)
    ensures
        res is Ok <==> expression_parses(text@, scheme_fields(*scheme)),
        res matches Ok(ast) ==> filter_source(ast) == text@ && parsed_against(ast, *scheme),
{
    scheme.parse(text).map_err(|error| error.to_string())
}

/// Runs a parsed expression on the values of the three fields: a copy of it
/// is compiled (`FilterAst::compile`), a context of the scheme is given the
/// values (`ExecutionContext::new`, `ExecutionContext::set_field_value`),
/// and the filter is executed on it (`Filter::execute`). Execution is
/// refused for an expression that was parsed against another scheme, and
/// for nothing else; the verdict is only given the name `expression_holds`.
#[verifier::external_body]
fn run_filter<'s>(
    scheme: &'s wirefilter::Scheme,
    ast: &wirefilter::FilterAst<'s>,
    number_field: &str,
    first_text_field: &str,
    second_text_field: &str,
    number: i32,
    first_text: &str,
    second_text: &str,
) -> (res: Option<bool>)
    requires
        scheme_fields(*scheme) == fields_in_order(
            number_field@,
            first_text_field@,
            second_text_field@,
        ),
    ensures
        parsed_against(*ast, *scheme) ==> res == Some(
            expression_holds(
                filter_source(*ast),
                scheme_fields(*scheme),
                number as int,
                first_text@,
                second_text@,
            ),
        ),
{
    let filter = ast.clone().compile();
    let mut context = ExecutionContext::new(scheme);
    context.set_field_value(number_field, number).ok()?;
    context.set_field_value(first_text_field, first_text).ok()?;
    context.set_field_value(second_text_field, second_text).ok()?;
    filter.execute(&context).ok()
}

/// The names of the fields of a line, in the order of the scheme.
pub open spec fn line_fields() -> Seq<Seq<char>> {
    fields_in_order(STATUS_CODE_FIELD@, USER_AGENT_FIELD@, TARGET_GROUP_FIELD@)
}

/// Whether `text` is a filter expression over the fields of a line.
pub open spec fn is_filter(text: Seq<char>) -> bool {
    expression_parses(text, line_fields())
}

/// Whether the filter expression `text` holds of a line.
pub open spec fn filter_holds(text: Seq<char>, line: LineView) -> bool {
    expression_holds(
        text,
        line_fields(),
        line.elb_status_code as int,
        line.user_agent,
        line.target_group_arn,
    )
}

/// The scheme of filter expressions: the three fields of a line that
/// expressions can speak of, and their types. It is made once, and every
/// predicate refers to it.
pub struct FilterScheme {
    inner: wirefilter::Scheme,
}

impl FilterScheme {
    #[verifier::type_invariant]
    spec fn has_line_fields(self) -> bool {
        scheme_fields(self.inner) == line_fields()
    }

    /// The names of the scheme's fields: the number field, then the two
    /// text fields.
    pub closed spec fn fields(&self) -> Seq<Seq<char>> {
        scheme_fields(self.inner)
    }

    /// The scheme of the status code, a number, and of the user agent and
    /// the target group, two texts.
    pub fn new() -> (scheme: FilterScheme)
        ensures
            scheme.fields() == line_fields(),
    {
        proof {
            reveal_strlit("elb_status_code");
            reveal_strlit("user_agent");
            reveal_strlit("target_group_arn");
            assert(STATUS_CODE_FIELD@[0] == 'e');
            assert(USER_AGENT_FIELD@[0] == 'u');
            assert(TARGET_GROUP_FIELD@[0] == 't');
        }
        let inner = build_scheme(STATUS_CODE_FIELD, USER_AGENT_FIELD, TARGET_GROUP_FIELD).unwrap();
        FilterScheme { inner }
    }
}

/// A filter expression that was parsed against the scheme: a condition on
/// lines.
pub struct Predicate<'s> {
    scheme: &'s FilterScheme,
    ast: wirefilter::FilterAst<'s>,
}

impl<'s> View for Predicate<'s> {
    type V = Seq<char>;

    closed spec fn view(&self) -> Seq<char> {
        filter_source(self.ast)
    }
}

impl<'s> Predicate<'s> {
    #[verifier::type_invariant]
    spec fn bound_to_scheme(self) -> bool {
        parsed_against(self.ast, self.scheme.inner)
    }

    /// Whether the predicate holds of a line.
    pub open spec fn accepts(&self, line: LineView) -> bool {
        filter_holds(self@, line)
    }

    /// Parses an expression against the scheme. The error holds the
    /// parser's description of the fault.
    pub fn compile(scheme: &'s FilterScheme, expression: &str) -> (res: Result<
        Predicate<'s>,
        CompileError,
    >)
        ensures
            res is Ok <==> is_filter(expression@),
            res matches Ok(predicate) ==> predicate@ == expression@,
            res matches Err(error) ==> error.filter@ == expression@,
    {
        proof {
            use_type_invariant(scheme);
        }
        match parse_filter(&scheme.inner, expression) {
            Ok(ast) => Ok(Predicate { scheme, ast }),
            Err(reason) => Err(CompileError { filter: expression.to_owned(), reason }),
        }
    }

    /// Evaluates the predicate on the fields of a line.
    pub fn execute(&self, context: &FieldValues<'_>) -> (verdict: bool)
        ensures
            verdict == expression_holds(
                self@,
                line_fields(),
                context.elb_status_code as int,
                context.user_agent@,
                context.target_group_arn@,
            ),
    {
        proof {
            use_type_invariant(self);
            use_type_invariant(self.scheme);
        }
        match run_filter(
            &self.scheme.inner,
            &self.ast,
            STATUS_CODE_FIELD,
            USER_AGENT_FIELD,
            TARGET_GROUP_FIELD,
            context.elb_status_code,
            context.user_agent,
            context.target_group_arn,
        ) {
            Some(verdict) => verdict,
            None => false,
        }
    }

    /// Whether the predicate holds of the line.
    pub fn matches(&self, line: &RequestLogLine) -> (verdict: bool)
        ensures
            verdict == self.accepts(line@),
    {
        self.execute(&line.execution_context())
    }
}

/// A configured pipeline: the text of a filter, and the sink for the lines
/// that the filter lets through.
#[derive(Debug)]
pub struct Pipeline {
    pub filter: String,
    pub output: OutputType,
}

impl Pipeline {
    /// The predicate that the pipeline's filter denotes.
    pub fn get_filter<'s>(&self, scheme: &'s FilterScheme) -> (res: Result<
        Predicate<'s>,
        CompileError,
    >)
        ensures
            res is Ok <==> is_filter(self.filter@),
            res matches Ok(predicate) ==> predicate@ == self.filter@,
            res matches Err(error) ==> error.filter@ == self.filter@,
    {
        Predicate::compile(scheme, self.filter.as_str())
    }
}

/// The pipelines of a configuration, in the order in which they are
/// evaluated.
#[derive(Debug)]
pub struct Pipelines(pub Vec<Pipeline>);

impl Pipelines {
    pub fn new(pipelines: Vec<Pipeline>) -> (res: Self)
        ensures
            res.0 == pipelines,
    {
        Pipelines(pipelines)
    }

    pub fn inner(&self) -> (pipelines: &Vec<Pipeline>)
        ensures
            *pipelines == self.0,
    {
        &self.0
    }
}

/// Whether the pipeline at `position` is the first whose filter is no valid
/// expression.
pub open spec fn is_first_invalid(pipelines: Seq<Pipeline>, position: int) -> bool {
    &&& 0 <= position < pipelines.len()
    &&& !is_filter(pipelines[position].filter@)
    &&& forall|j: int| 0 <= j < position ==> is_filter(#[trigger] pipelines[j].filter@)
}

/// Whether `compiled` pairs every pipeline, in order, with the predicate of
/// its filter.
pub open spec fn is_compilation(
    compiled: Seq<(Pipeline, Predicate<'_>)>,
    pipelines: Seq<Pipeline>,
) -> bool {
    &&& compiled.len() == pipelines.len()
    &&& forall|i: int|
        0 <= i < compiled.len() ==> (#[trigger] compiled[i]).0 == pipelines[i] && compiled[i].1@
            == pipelines[i].filter@
}

/// Compiles the filter of every pipeline, in order. The first filter that
/// is no valid expression ends the attempt: the error comes with the
/// position of its pipeline.
pub fn compile_pipelines<'s>(pipelines: Pipelines, scheme: &'s FilterScheme) -> (res: Result<
    Vec<(Pipeline, Predicate<'s>)>,
    (usize, CompileError),
>)
    ensures
        match res {
            Ok(compiled) => is_compilation(compiled@, pipelines.0@) && forall|i: int|
                0 <= i < pipelines.0@.len() ==> is_filter(#[trigger] pipelines.0@[i].filter@),
            Err((position, error)) => is_first_invalid(pipelines.0@, position as int)
                && error.filter@ == pipelines.0@[position as int].filter@,
        },
{
    let mut compiled: Vec<(Pipeline, Predicate<'s>)> = Vec::new();
    let ghost all = pipelines.0@;
    for pipeline in it: pipelines.0
        invariant
            it.seq() == all,
            compiled@.len() == it.index(),
            forall|j: int| 0 <= j < it.index() ==> is_filter(#[trigger] all[j].filter@),
            forall|j: int|
                0 <= j < it.index() ==> (#[trigger] compiled@[j]).0 == all[j] && compiled@[j].1@
                    == all[j].filter@,
    {
        match pipeline.get_filter(scheme) {
            Ok(predicate) => {
                compiled.push((pipeline, predicate));
            },
            Err(error) => {
                assert(is_first_invalid(all, it.index() as int));
                return Err((compiled.len(), error));
            },
        }
    }
    Ok(compiled)
}

} // verus!
