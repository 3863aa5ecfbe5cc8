//! Scripts on a snapshot of a page.
//!
//! A script is run in a context of its own, without any binding to the host:
//! what it can see of the page is a constant that is put in front of it.

use crate::json::{
    empty_object, json_str, json_text, json_written, law_entries_are_kept, Json, JsonView,
};
use crate::model::{Element, ElementView, EvalResponse, Page, PageView};
use crate::seqs::{first_where, lemma_first_where_is};
use crate::text::{decimal, decimal_text, or_empty, same_text, text_or_empty};
use crate::tree::{nodes_of, preorder};
use vstd::prelude::*;
use vstd::utf8::encode_utf8;

verus! {

/// A short-lived JavaScript context with no host bindings. Each call makes a
/// new context, so that scripts share no globals.
#[derive(Debug)]
pub struct JsRuntime {
    max_source_bytes: usize,
    recursion_limit: usize,
    stack_size_limit: usize,
}

/// The limits of a runtime, as a mathematical value: on the bytes of a
/// script, on its recursion and on its stack.
#[verifier::ext_equal]
pub struct RuntimeView {
    pub max_source_bytes: int,
    pub recursion_limit: int,
    pub stack_size_limit: int,
}

impl View for JsRuntime {
    type V = RuntimeView;

    closed spec fn view(&self) -> RuntimeView {
        RuntimeView {
            max_source_bytes: self.max_source_bytes as int,
            recursion_limit: self.recursion_limit as int,
            stack_size_limit: self.stack_size_limit as int,
        }
    }
}

/// What a script comes to, as text.
pub type JsValueResult = String;

/// Why a script came to nothing.
#[derive(Debug)]
pub enum JsError {
    /// The script is longer than this many bytes.
    TooLong(usize),
    /// The script threw.
    Thrown(String),
    /// What the script came to cannot be written as text.
    NotText(String),
}

impl JsError {
    pub open spec fn text(&self) -> Seq<char> {
        match self {
            JsError::TooLong(limit) => "script exceeds the "@ + decimal(*limit as nat)
                + " byte safety limit"@,
            JsError::Thrown(error) => "JavaScript error: "@ + error@,
            JsError::NotText(error) => "JavaScript conversion error: "@ + error@,
        }
    }

    /// The reason in words.
    pub fn message(&self) -> (message: String)
        ensures
            message@ == self.text(),
    {
        match self {
            JsError::TooLong(limit) => "script exceeds the ".to_owned().concat(
                decimal_text(*limit as u128).as_str(),
            ).concat(" byte safety limit"),
            JsError::Thrown(error) => "JavaScript error: ".to_owned().concat(error.as_str()),
            JsError::NotText(error) => "JavaScript conversion error: ".to_owned().concat(
                error.as_str(),
            ),
        }
    }
}

impl Default for JsRuntime {
    fn default() -> (runtime: Self)
        ensures
            runtime@ == (RuntimeView {
                max_source_bytes: 65536,
                recursion_limit: 256,
                stack_size_limit: 16384,
            }),
    {
        JsRuntime { max_source_bytes: 65536, recursion_limit: 256, stack_size_limit: 16384 }
    }
}

/// A context of `boa_engine`: opaque here.
#[verifier::external_type_specification]
#[verifier::external_body]
pub struct ExContext(boa_engine::Context);

/// A value of `boa_engine`: opaque here.
#[verifier::external_type_specification]
#[verifier::external_body]
pub struct ExJsValue(boa_engine::JsValue);

/// Calls `boa_engine::Context::default` and sets the two limits of the new
/// context: on recursion the first, on the stack the second. Nothing is
/// claimed of the context.
#[verifier::external_body]
fn new_context(limits: (usize, usize)) -> boa_engine::Context {
    let mut context = boa_engine::Context::default();
    context.runtime_limits_mut().set_recursion_limit(limits.0);
    context.runtime_limits_mut().set_stack_size_limit(limits.1);
    context
}

/// Calls `boa_engine::Context::eval`. Nothing is claimed of what the script
/// does or comes to: it may ask for the time or for a random number, and a
/// script that never ends is never answered.
#[verifier::external_body]
fn eval(context: &mut boa_engine::Context, code: &str) -> Result<boa_engine::JsValue, String> {
    context.eval(boa_engine::Source::from_bytes(code)).map_err(|error| error.to_string())
}

/// Calls `boa_engine::JsValue::to_string`, and writes what comes back as
/// text. Nothing is claimed of it: to write a value may run more of the
/// script.
#[verifier::external_body]
fn value_text(value: &boa_engine::JsValue, context: &mut boa_engine::Context) -> Result<
    String,
    String,
> {
    let text = value.to_string(context).map_err(|error| error.to_string())?;
    Ok(text.to_std_string_escaped())
}

/// The code that is run: what the script can see, and the script.
pub open spec fn program(prelude: Seq<char>, source: Seq<char>) -> Seq<char> {
    prelude + "\n"@ + source
}

/// Whether a script is too long to be run.
pub open spec fn is_too_long(runtime: &JsRuntime, source: Seq<char>) -> bool {
    encode_utf8(source).len() > runtime@.max_source_bytes
}

/// The result of a script, from what running it and writing its value gave.
pub fn script_result(
    evaluated: Result<Result<String, String>, String>,
) -> (result: Result<JsValueResult, JsError>)
    ensures
        match evaluated {
            Ok(Ok(text)) => result == Ok::<JsValueResult, JsError>(text),
            Ok(Err(error)) => result == Err::<JsValueResult, JsError>(JsError::NotText(error)),
            Err(error) => result == Err::<JsValueResult, JsError>(JsError::Thrown(error)),
        },
{
    match evaluated {
        Ok(Ok(text)) => Ok(text),
        Ok(Err(error)) => Err(JsError::NotText(error)),
        Err(error) => Err(JsError::Thrown(error)),
    }
}

impl JsRuntime {
    /// The code to be run for a script; refused where the script is longer
    /// than the limit.
    pub fn prepare(&self, prelude: &str, source: &str) -> (code: Result<String, JsError>)
        ensures
            is_too_long(self, source@) ==> code == Err::<String, JsError>(
                JsError::TooLong(self@.max_source_bytes as usize),
            ),
            !is_too_long(self, source@) ==> code is Ok && code->Ok_0@ == program(
                prelude@,
                source@,
            ),
    {
        if source.as_bytes().len() > self.max_source_bytes {
            return Err(JsError::TooLong(self.max_source_bytes));
        }
        Ok(prelude.to_owned().concat("\n").concat(source))
    }

    /// The code to be run for a script on a page; refused where the script
    /// is longer than the limit.
    pub fn prepare_page(&self, page: &Page, source: &str) -> (code: Result<String, JsError>)
        ensures
            is_too_long(self, source@) ==> code == Err::<String, JsError>(
                JsError::TooLong(self@.max_source_bytes as usize),
            ),
            !is_too_long(self, source@) ==> code is Ok && code->Ok_0@ == program(
                prelude_of(page.deep_view()),
                source@,
            ),
    {
        self.prepare(page_prelude(page).as_str(), source)
    }

    /// The limits that a script is run under: on its recursion and on its
    /// stack.
    pub fn limits(&self) -> (limits: (usize, usize))
        ensures
            limits.0 == self@.recursion_limit,
            limits.1 == self@.stack_size_limit,
    {
        (self.recursion_limit, self.stack_size_limit)
    }

    /// Runs code that was prepared, in a new context.
    fn run(&self, code: Result<String, JsError>) -> (result: Result<JsValueResult, JsError>)
        ensures
            code matches Err(error) ==> result == Err::<JsValueResult, JsError>(error),
            code is Ok ==> !(result is Err && result->Err_0 is TooLong),
    {
        let code = match code {
            Ok(code) => code,
            Err(error) => {
                return Err(error);
            },
        };
        let mut context = new_context(self.limits());
        let evaluated = match eval(&mut context, code.as_str()) {
            Ok(value) => Ok(value_text(&value, &mut context)),
            Err(error) => Err(error),
        };
        script_result(evaluated)
    }

    /// Runs a script in a new context. It is refused, and not run, if and
    /// only if it is longer than the limit; otherwise what comes back is
    /// what the script came to, or what it threw.
    pub fn evaluate(&self, source: &str) -> (result: Result<JsValueResult, JsError>)
        ensures
            is_too_long(self, source@) <==> result is Err && result->Err_0 is TooLong,
            is_too_long(self, source@) ==> result == Err::<JsValueResult, JsError>(
                JsError::TooLong(self@.max_source_bytes as usize),
            ),
    {
        self.run(self.prepare("", source))
    }

    /// Runs a script in a new context in which `document` is a snapshot of
    /// the page. The limit is on the script alone.
    pub fn evaluate_page(&self, page: &Page, source: &str) -> (result: Result<
        JsValueResult,
        JsError,
    >)
        ensures
            is_too_long(self, source@) <==> result is Err && result->Err_0 is TooLong,
            is_too_long(self, source@) ==> result == Err::<JsValueResult, JsError>(
                JsError::TooLong(self@.max_source_bytes as usize),
            ),
    {
        self.run(self.prepare_page(page, source))
    }
}

pub open spec fn shown_test(tag: Seq<char>) -> spec_fn(ElementView) -> bool {
    |e: ElementView| e.tag == tag
}

/// The text of the first element with a tag, under its tag.
pub open spec fn with_shown(
    entries: JsonView,
    nodes: Seq<ElementView>,
    tag: Seq<char>,
) -> JsonView {
    let at = first_where(nodes, shown_test(tag));
    if at < nodes.len() {
        entries.plus(tag, json_str(nodes[at].text))
    } else {
        entries
    }
}

/// The texts that a script can ask for by tag.
pub open spec fn selector_json(root: ElementView) -> JsonView {
    let nodes = preorder(root);
    let a = with_shown(empty_object(), nodes, "a"@);
    let button = with_shown(a, nodes, "button"@);
    let h1 = with_shown(button, nodes, "h1"@);
    let h2 = with_shown(h1, nodes, "h2"@);
    let h3 = with_shown(h2, nodes, "h3"@);
    with_shown(h3, nodes, "p"@)
}

/// The constant that shows a page to a script.
pub open spec fn prelude_of(page: PageView) -> Seq<char> {
    "const document = { title: "@ + json_written(json_str(text_or_empty(page.title)))
        + ", body: { innerText: "@ + json_written(json_str(page.text))
        + " }, querySelector: (selector) => ({ innerText: ("@ + json_written(
        selector_json(page.root),
    ) + ")[selector] || '' }) };"@
}

fn add_shown(entries: Json, nodes: &Vec<&Element>, tag: &str) -> (more: Json)
    ensures
        more.deep_view() == with_shown(entries.deep_view(), nodes.deep_view(), tag@),
{
    let ghost test = shown_test(tag@);
    for i in 0..nodes.len()
        invariant
            test == shown_test(tag@),
            forall|k: int| 0 <= k < i ==> !test(#[trigger] nodes.deep_view()[k]),
    {
        assert(nodes.deep_view()[i as int] == nodes@[i as int].deep_view());
        if same_text(nodes[i].tag.as_str(), tag) {
            proof {
                lemma_first_where_is(nodes.deep_view(), test, i as int);
            }
            return entries.with(tag, Json::string(nodes[i].text.as_str()));
        }
    }
    proof {
        lemma_first_where_is(nodes.deep_view(), test, nodes@.len() as int);
    }
    entries
}

/// The texts that a script can ask for by tag: that of the first `a`,
/// `button`, `h1`, `h2`, `h3` and `p`, as far as there is one.
pub fn selector_texts(root: &Element) -> (texts: Json)
    ensures
        texts.deep_view() == selector_json(root.deep_view()),
{
    let nodes = nodes_of(root);
    let a = add_shown(Json::object(), &nodes, "a");
    let button = add_shown(a, &nodes, "button");
    let h1 = add_shown(button, &nodes, "h1");
    let h2 = add_shown(h1, &nodes, "h2");
    let h3 = add_shown(h2, &nodes, "h3");
    add_shown(h3, &nodes, "p")
}

/// The constant that shows a page to a script: its title, its text, and the
/// texts that can be asked for by tag.
pub fn page_prelude(page: &Page) -> (prelude: String)
    ensures
        prelude@ == prelude_of(page.deep_view()),
{
    "const document = { title: ".to_owned().concat(
        json_text(&Json::string(or_empty(&page.title))).as_str(),
    ).concat(", body: { innerText: ").concat(
        json_text(&Json::string(page.text.as_str())).as_str(),
    ).concat(" }, querySelector: (selector) => ({ innerText: (").concat(
        json_text(&selector_texts(&page.root)).as_str(),
    ).concat(")[selector] || '' }) };")
}

/// What is reported of a script that was run.
pub fn eval_response(result: Result<JsValueResult, JsError>) -> (response: EvalResponse)
    ensures
        match result {
            Ok(value) => response.value == Some(value) && response.error is None,
            Err(error) => response.value is None && response.error is Some
                && response.error->0@ == error.text(),
        },
{
    match result {
        Ok(value) => EvalResponse { value: Some(value), error: None },
        Err(error) => EvalResponse { value: None, error: Some(error.message()) },
    }
}

/// What a report says that the script came to.
pub fn eval_outcome(response: EvalResponse) -> (outcome: Result<String, String>)
    ensures
        match (response.value, response.error) {
            (Some(value), _) => outcome == Ok::<String, String>(value),
            (None, Some(error)) => outcome == Err::<String, String>(error),
            (None, None) => outcome is Err && outcome->Err_0@
                == "JavaScript child returned no result"@,
        },
{
    match response.value {
        Some(value) => Ok(value),
        None => match response.error {
            Some(error) => Err(error),
            None => Err("JavaScript child returned no result".to_owned()),
        },
    }
}

proof fn lemma_shown(
    entries: Seq<(Seq<char>, JsonView)>,
    nodes: Seq<ElementView>,
    tag: Seq<char>,
    key: Seq<char>,
    at: int,
)
    requires
        0 <= at <= nodes.len(),
        forall|k: int| 0 <= k < at ==> (#[trigger] nodes[k]).tag != key,
        at < nodes.len() ==> nodes[at].tag == key,
    ensures
        ({
            let more = with_shown(JsonView::Object(entries), nodes, tag);
            let before = JsonView::Object(entries).field(key);
            &&& more is Object
            &&& key != tag ==> more.field(key) == before
            &&& key == tag && before is None ==> more.field(key) == if at < nodes.len() {
                Some(JsonView::Str(nodes[at].text))
            } else {
                None
            }
            &&& before is Some ==> more.field(key) == before
        }),
{
    let first = first_where(nodes, shown_test(tag));
    if key == tag {
        lemma_first_where_is(nodes, shown_test(tag), at);
    }
    if first < nodes.len() {
        law_entries_are_kept(entries, tag, json_str(nodes[first].text), key);
    }
}

/// A script finds, by the tags `a`, `button`, `h1`, `h2`, `h3` and `p`, the
/// text of the first element with that tag, as far as there is one, and
/// nothing by any other.
pub proof fn law_script_finds_the_first_of_a_tag(root: ElementView, tag: Seq<char>, at: int)
    requires
        0 <= at <= preorder(root).len(),
        forall|k: int| 0 <= k < at ==> (#[trigger] preorder(root)[k]).tag != tag,
        at < preorder(root).len() ==> preorder(root)[at].tag == tag,
    ensures
        ({
            let shown = tag == "a"@ || tag == "button"@ || tag == "h1"@ || tag == "h2"@ || tag
                == "h3"@ || tag == "p"@;
            &&& shown && at < preorder(root).len() ==> selector_json(root).field(tag) == Some(
                JsonView::Str(preorder(root)[at].text),
            )
            &&& !shown || at == preorder(root).len() ==> selector_json(root).field(tag) is None
        }),
{
    let nodes = preorder(root);
    let start = empty_object();
    law_entries_are_kept(Seq::empty(), tag, json_str(tag), tag);
    lemma_shown(start->Object_0, nodes, "a"@, tag, at);
    let a = with_shown(start, nodes, "a"@);
    lemma_shown(a->Object_0, nodes, "button"@, tag, at);
    let button = with_shown(a, nodes, "button"@);
    lemma_shown(button->Object_0, nodes, "h1"@, tag, at);
    let h1 = with_shown(button, nodes, "h1"@);
    lemma_shown(h1->Object_0, nodes, "h2"@, tag, at);
    let h2 = with_shown(h1, nodes, "h2"@);
    lemma_shown(h2->Object_0, nodes, "h3"@, tag, at);
    let h3 = with_shown(h2, nodes, "h3"@);
    lemma_shown(h3->Object_0, nodes, "p"@, tag, at);
}

/// What a script sees of a page is a constant `document` in front of it: the
/// title, or an empty text where there is none; the text of the page; and the
/// texts that can be asked for by tag. They are written as JSON, so that
/// whatever the page says stays data.
pub proof fn law_script_sees_title_and_text(page: PageView, source: Seq<char>)
    ensures
        program(prelude_of(page), source) == "const document = { title: "@ + json_written(
            JsonView::Str(
                match page.title {
                    Some(title) => title,
                    None => Seq::empty(),
                },
            ),
        ) + ", body: { innerText: "@ + json_written(JsonView::Str(page.text))
            + " }, querySelector: (selector) => ({ innerText: ("@ + json_written(
            selector_json(page.root),
        ) + ")[selector] || '' }) };"@ + "\n"@ + source,
{
}

/// A script is too long if its own bytes are more than the limit, whatever
/// the page holds.
pub proof fn law_limit_is_on_the_script(runtime: &JsRuntime, source: Seq<char>)
    ensures
        is_too_long(runtime, source) <==> encode_utf8(source).len() > runtime@.max_source_bytes,
{
}

/// Why a script came to nothing is told in words: that it is longer than the
/// limit, or what it threw.
pub proof fn law_script_errors_are_told(error: JsError)
    ensures
        error matches JsError::TooLong(limit) ==> error.text() == "script exceeds the "@ + decimal(
            limit as nat,
        ) + " byte safety limit"@,
        error matches JsError::Thrown(thrown) ==> error.text() == "JavaScript error: "@ + thrown@,
        error matches JsError::NotText(thrown) ==> error.text()
            == "JavaScript conversion error: "@ + thrown@,
{
}

} // verus!
