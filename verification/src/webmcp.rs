//! Tools that a page declares with attributes: a `<form>` with a `toolname`
//! is a tool, its fields are the tool's parameters. Only what the parsed
//! page says counts: no script runs.

use crate::forms::{encode_query, law_query_tells_the_fields, query_of};
use crate::json::{
    empty_object, json_key_test, json_str, json_strings, json_text, json_written,
    law_field_is_the_first_of_its_key, lemma_entries, Json, JsonView,
};
use crate::model::{Element, ElementView, Page, PageView};
use crate::seqs::{
    are_places, count_where, first_where, gather, law_count_is_that_of_the_places,
    lemma_count_push, lemma_first_where, lemma_first_where_is, lemma_gather_counts,
    lemma_gather_lists, lemma_gather_push, lemma_gather_same, lemma_lists_agree, lists,
};
use crate::text::{
    all_white_space, ascii_lower, decimal, decimal_text, is_blank, lemma_no_words, or_empty,
    same_ignoring_case, same_text, text_or_empty, words,
};
use crate::tree::{is_form, nodes_of, preorder};
use vstd::prelude::*;

verus! {

/// A tool that a page declares.
#[derive(Debug)]
pub struct WebMcpTool {
    pub name: String,
    pub description: String,
    pub autosubmit: bool,
    pub input_schema: Json,
}

/// What a tool is, as a mathematical value.
#[verifier::ext_equal]
pub struct ToolView {
    pub name: Seq<char>,
    pub description: Seq<char>,
    pub autosubmit: bool,
    pub input_schema: JsonView,
}

impl DeepView for WebMcpTool {
    type V = ToolView;

    open spec fn deep_view(&self) -> ToolView {
        ToolView {
            name: self.name@,
            description: self.description@,
            autosubmit: self.autosubmit,
            input_schema: self.input_schema.deep_view(),
        }
    }
}

/// Whether an element is a form that declares a tool.
pub open spec fn declares_tool(e: ElementView) -> bool {
    is_form(e) && e.tool_name is Some
}

/// Whether an element is a field of a form.
pub open spec fn is_field(e: ElementView) -> bool {
    e.tag == "input"@ || e.tag == "textarea"@ || e.tag == "select"@
}

/// The name of a form field that has one.
pub open spec fn field_name_of(e: ElementView) -> Option<Seq<char>> {
    if is_field(e) {
        e.name
    } else {
        None
    }
}

pub open spec fn option_pick() -> spec_fn(ElementView) -> Seq<Seq<char>> {
    |e: ElementView|
        if e.tag == "option"@ {
            seq![
                match e.value {
                    Some(value) => value,
                    None => e.text,
                },
            ]
        } else {
            Seq::empty()
        }
}

/// What can be chosen in a `<select>`: the value of each `<option>` in it, in
/// a group or not, or its text.
pub open spec fn options_of(select: ElementView) -> Seq<Seq<char>> {
    gather(preorder(select), option_pick())
}

/// What a field takes.
pub open spec fn field_type(e: ElementView) -> JsonView {
    if e.tag == "select"@ {
        empty_object().plus("type"@, json_str("string"@)).plus(
            "enum"@,
            json_strings(options_of(e)),
        )
    } else if e.kind == Some("checkbox"@) {
        empty_object().plus("type"@, json_str("boolean"@))
    } else if e.kind == Some("number"@) {
        empty_object().plus("type"@, json_str("number"@))
    } else {
        empty_object().plus("type"@, json_str("string"@))
    }
}

/// What a field takes, with its description where it has one.
pub open spec fn field_schema(e: ElementView) -> JsonView {
    match e.tool_param_description {
        Some(description) => field_type(e).plus("description"@, json_str(description)),
        None => field_type(e),
    }
}

/// The entries with the value set that stands with a key: in place of an
/// earlier one, else behind the others.
pub open spec fn inserted(
    entries: Seq<(Seq<char>, JsonView)>,
    key: Seq<char>,
    value: JsonView,
) -> Seq<(Seq<char>, JsonView)> {
    let at = first_where(entries, json_key_test(key));
    if at < entries.len() {
        entries.update(at, (key, value))
    } else {
        entries.push((key, value))
    }
}

/// The parameters of a tool with these elements: where two fields have one
/// name, the later counts.
pub open spec fn properties_of(nodes: Seq<ElementView>) -> Seq<(Seq<char>, JsonView)>
    decreases nodes.len(),
{
    if nodes.len() == 0 {
        Seq::empty()
    } else {
        let before = properties_of(nodes.drop_last());
        match field_name_of(nodes.last()) {
            Some(name) => inserted(before, name, field_schema(nodes.last())),
            None => before,
        }
    }
}

pub open spec fn required_pick() -> spec_fn(ElementView) -> Seq<Seq<char>> {
    |e: ElementView|
        match field_name_of(e) {
            Some(name) if e.required => seq![name],
            _ => Seq::empty(),
        }
}

/// The tool that a form declares.
pub open spec fn tool_of(form: ElementView) -> ToolView {
    let nodes = preorder(form);
    ToolView {
        name: text_or_empty(form.tool_name),
        description: text_or_empty(form.tool_description),
        autosubmit: form.tool_autosubmit,
        input_schema: empty_object().plus("type"@, json_str("object"@)).plus(
            "properties"@,
            JsonView::Object(properties_of(nodes)),
        ).plus("required"@, json_strings(gather(nodes, required_pick()))),
    }
}

pub open spec fn tool_pick() -> spec_fn(ElementView) -> Seq<ToolView> {
    |e: ElementView|
        if declares_tool(e) {
            seq![tool_of(e)]
        } else {
            Seq::empty()
        }
}

/// The tools that a page declares, in document order.
pub open spec fn tools_of(page: PageView) -> Seq<ToolView> {
    gather(preorder(page.root), tool_pick())
}

fn has_tool(e: &Element) -> (yes: bool)
    ensures
        yes == declares_tool(e.deep_view()),
{
    same_text(e.tag.as_str(), "form") && e.tool_name.is_some()
}

fn field_name(element: &Element) -> (name: Option<&String>)
    ensures
        name.deep_view() == field_name_of(element.deep_view()),
{
    if same_text(element.tag.as_str(), "input") || same_text(element.tag.as_str(), "textarea")
        || same_text(element.tag.as_str(), "select") {
        match &element.name {
            Some(name) => Some(name),
            None => None,
        }
    } else {
        None
    }
}

fn option_values(select: &Element) -> (values: Vec<String>)
    ensures
        values.deep_view() == options_of(select.deep_view()),
{
    let mut values: Vec<String> = Vec::new();
    let nodes = nodes_of(select);
    let ghost listed = nodes.deep_view();
    assert(listed.take(0) =~= Seq::empty());
    assert(values.deep_view() =~= Seq::empty());
    for i in 0..nodes.len()
        invariant
            listed == nodes.deep_view(),
            values.deep_view() == gather(listed.take(i as int), option_pick()),
    {
        let option = nodes[i];
        let ghost held = values.deep_view();
        proof {
            assert(listed.take(i + 1) =~= listed.take(i as int).push(option.deep_view()));
            lemma_gather_push(listed.take(i as int), option.deep_view(), option_pick());
        }
        if same_text(option.tag.as_str(), "option") {
            let value = match &option.value {
                Some(value) => value.clone(),
                None => option.text.clone(),
            };
            values.push(value);
        }
        assert(values.deep_view() =~= held + option_pick()(option.deep_view()));
    }
    assert(listed.take(listed.len() as int) =~= listed);
    values
}

fn field_type_schema(element: &Element) -> (schema: Json)
    ensures
        schema.deep_view() == field_type(element.deep_view()),
{
    if same_text(element.tag.as_str(), "select") {
        return Json::object().with("type", Json::string("string")).with(
            "enum",
            Json::strings(&option_values(element)),
        );
    }
    let name = match &element.kind {
        Some(kind) => {
            if same_text(kind.as_str(), "checkbox") {
                "boolean"
            } else if same_text(kind.as_str(), "number") {
                "number"
            } else {
                "string"
            }
        },
        None => "string",
    };
    Json::object().with("type", Json::string(name))
}

fn insert_property(entries: &mut Vec<(String, Json)>, key: &String, value: Json)
    ensures
        final(entries).deep_view() == inserted(
            old(entries).deep_view(),
            key@,
            value.deep_view(),
        ),
{
    let ghost before = entries.deep_view();
    let ghost test = json_key_test(key@);
    let mut i: usize = 0;
    while i < entries.len()
        invariant
            *entries == *old(entries),
            before == entries.deep_view(),
            test == json_key_test(key@),
            i <= entries@.len(),
            forall|k: int| 0 <= k < i ==> !test(#[trigger] before[k]),
        decreases entries@.len() - i,
    {
        assert(before[i as int] == entries@[i as int].deep_view());
        if same_text(entries[i].0.as_str(), key.as_str()) {
            proof {
                lemma_first_where_is(before, test, i as int);
            }
            entries.set(i, (key.clone(), value));
            assert(entries.deep_view() =~= inserted(before, key@, value.deep_view()));
            return;
        }
        i = i + 1;
    }
    proof {
        lemma_first_where_is(before, test, before.len() as int);
    }
    entries.push((key.clone(), value));
    assert(entries.deep_view() =~= inserted(before, key@, value.deep_view()));
}

fn build_tool(form: &Element) -> (tool: WebMcpTool)
    ensures
        tool.deep_view() == tool_of(form.deep_view()),
{
    let nodes = nodes_of(form);
    let ghost listed = nodes.deep_view();
    let mut properties: Vec<(String, Json)> = Vec::new();
    let mut required: Vec<String> = Vec::new();
    assert(listed.take(0) =~= Seq::empty());
    assert(properties.deep_view() =~= Seq::empty());
    assert(required.deep_view() =~= Seq::empty());
    for i in 0..nodes.len()
        invariant
            listed == nodes.deep_view(),
            properties.deep_view() == properties_of(listed.take(i as int)),
            required.deep_view() == gather(listed.take(i as int), required_pick()),
    {
        let e = nodes[i];
        let ghost held = required.deep_view();
        proof {
            assert(listed.take(i + 1) =~= listed.take(i as int).push(e.deep_view()));
            assert(listed.take(i + 1).drop_last() =~= listed.take(i as int));
            lemma_gather_push(listed.take(i as int), e.deep_view(), required_pick());
        }
        if let Some(name) = field_name(e) {
            let mut schema = field_type_schema(e);
            if let Some(description) = &e.tool_param_description {
                schema = schema.with("description", Json::string(description.as_str()));
            }
            insert_property(&mut properties, name, schema);
            if e.required {
                required.push(name.clone());
            }
        }
        assert(required.deep_view() =~= held + required_pick()(e.deep_view()));
    }
    assert(listed.take(listed.len() as int) =~= listed);
    proof {
        lemma_entries(&properties);
    }
    WebMcpTool {
        name: or_empty(&form.tool_name).to_owned(),
        description: or_empty(&form.tool_description).to_owned(),
        autosubmit: form.tool_autosubmit,
        input_schema: Json::object().with("type", Json::string("object")).with(
            "properties",
            Json::Object(properties),
        ).with("required", Json::strings(&required)),
    }
}

/// Finds every `<form toolname="...">` of a page and describes it as a tool.
pub fn discover_tools(page: &Page) -> (tools: Vec<WebMcpTool>)
    ensures
        tools.deep_view() == tools_of(page.deep_view()),
{
    let nodes = nodes_of(&page.root);
    let ghost listed = nodes.deep_view();
    let mut tools: Vec<WebMcpTool> = Vec::new();
    assert(listed.take(0) =~= Seq::empty());
    assert(tools.deep_view() =~= Seq::empty());
    for i in 0..nodes.len()
        invariant
            listed == nodes.deep_view(),
            tools.deep_view() == gather(listed.take(i as int), tool_pick()),
    {
        let e = nodes[i];
        let ghost held = tools.deep_view();
        proof {
            assert(listed.take(i + 1) =~= listed.take(i as int).push(e.deep_view()));
            lemma_gather_push(listed.take(i as int), e.deep_view(), tool_pick());
        }
        if has_tool(e) {
            tools.push(build_tool(e));
        }
        assert(tools.deep_view() =~= held + tool_pick()(e.deep_view()));
    }
    assert(listed.take(listed.len() as int) =~= listed);
    tools
}

/// An argument as a field value: a string as it is, anything else as it is
/// written.
pub open spec fn argument_text(value: JsonView) -> Seq<char> {
    match value {
        JsonView::Str(s) => s,
        _ => json_written(value),
    }
}

/// What a field is submitted with where there is no argument for it.
pub open spec fn default_value(e: ElementView) -> Seq<char> {
    if e.tag == "select"@ {
        if options_of(e).len() > 0 {
            options_of(e)[0]
        } else {
            Seq::empty()
        }
    } else {
        text_or_empty(e.value)
    }
}

pub open spec fn argument_pick(arguments: JsonView) -> spec_fn(ElementView) -> Seq<
    (Seq<char>, Seq<char>),
> {
    |e: ElementView|
        match field_name_of(e) {
            Some(name) => seq![
                (
                    name,
                    match arguments.field(name) {
                        Some(value) => argument_text(value),
                        None => default_value(e),
                    },
                ),
            ],
            None => Seq::empty(),
        }
}

/// The fields of a form with the values that the arguments give them.
pub open spec fn filled_fields(form: ElementView, arguments: JsonView) -> Seq<
    (Seq<char>, Seq<char>),
> {
    gather(preorder(form), argument_pick(arguments))
}

pub open spec fn tool_test(tool_name: Seq<char>) -> spec_fn(ElementView) -> bool {
    |e: ElementView| is_form(e) && e.tool_name == Some(tool_name)
}

/// Where a form leads: to its action, else to the page that it is on.
pub open spec fn action_of(form: ElementView, page: PageView) -> Seq<char> {
    match form.href {
        Some(href) => href,
        None => text_or_empty(page.url),
    }
}

/// What calling a tool submits, and where to; `None` where the page has no
/// such tool.
pub open spec fn submission_of(
    page: PageView,
    tool_name: Seq<char>,
    arguments: JsonView,
) -> Option<(Seq<char>, Seq<char>)> {
    let nodes = preorder(page.root);
    let at = first_where(nodes, tool_test(tool_name));
    if at < nodes.len() {
        Some((action_of(nodes[at], page), query_of(filled_fields(nodes[at], arguments))))
    } else {
        None
    }
}

/// Where a form leads: to its action, else to the page that it is on.
pub fn action_url(form: &Element, page: &Page) -> (url: String)
    ensures
        url@ == action_of(form.deep_view(), page.deep_view()),
{
    match &form.href {
        Some(href) => href.clone(),
        None => or_empty(&page.url).to_owned(),
    }
}

fn argument_to_string(value: &Json) -> (text: String)
    ensures
        text@ == argument_text(value.deep_view()),
{
    match value {
        Json::Str(s) => s.clone(),
        _ => json_text(value),
    }
}

fn default_field_value(element: &Element) -> (value: String)
    ensures
        value@ == default_value(element.deep_view()),
{
    if same_text(element.tag.as_str(), "select") {
        let options = option_values(element);
        if options.len() > 0 {
            assert(options.deep_view()[0] == options@[0]@);
            options[0].clone()
        } else {
            String::new()
        }
    } else {
        or_empty(&element.value).to_owned()
    }
}

fn collect_arg_fields(form: &Element, arguments: &Json) -> (fields: Vec<(String, String)>)
    ensures
        fields.deep_view() == filled_fields(form.deep_view(), arguments.deep_view()),
{
    let nodes = nodes_of(form);
    let ghost listed = nodes.deep_view();
    let ghost pick = argument_pick(arguments.deep_view());
    let mut fields: Vec<(String, String)> = Vec::new();
    assert(listed.take(0) =~= Seq::empty());
    assert(fields.deep_view() =~= Seq::empty());
    for i in 0..nodes.len()
        invariant
            listed == nodes.deep_view(),
            pick == argument_pick(arguments.deep_view()),
            fields.deep_view() == gather(listed.take(i as int), pick),
    {
        let e = nodes[i];
        let ghost held = fields.deep_view();
        proof {
            assert(listed.take(i + 1) =~= listed.take(i as int).push(e.deep_view()));
            lemma_gather_push(listed.take(i as int), e.deep_view(), pick);
        }
        if let Some(name) = field_name(e) {
            let value = match arguments.get(name.as_str()) {
                Some(value) => argument_to_string(value),
                None => default_field_value(e),
            };
            fields.push((name.clone(), value));
        }
        assert(fields.deep_view() =~= held + pick(e.deep_view()));
    }
    assert(listed.take(listed.len() as int) =~= listed);
    fields
}

/// Finds the form that declares a tool and builds the query string that it
/// would submit, each field filled from `arguments` or, where there is no
/// argument, with its current value. Submission is a GET: a form's
/// `method="post"` is not honoured.
pub fn build_submission(page: &Page, tool_name: &str, arguments: &Json) -> (submission: Option<
    (String, String),
>)
    ensures
        submission.deep_view() == submission_of(
            page.deep_view(),
            tool_name@,
            arguments.deep_view(),
        ),
{
    let nodes = nodes_of(&page.root);
    let ghost test = tool_test(tool_name@);
    for i in 0..nodes.len()
        invariant
            nodes.deep_view() == preorder(page.deep_view().root),
            test == tool_test(tool_name@),
            forall|k: int| 0 <= k < i ==> !test(#[trigger] nodes.deep_view()[k]),
    {
        let e = nodes[i];
        assert(nodes.deep_view()[i as int] == e.deep_view());
        if same_text(e.tag.as_str(), "form") {
            if let Some(name) = &e.tool_name {
                if same_text(name.as_str(), tool_name) {
                    proof {
                        lemma_first_where_is(nodes.deep_view(), test, i as int);
                    }
                    let fields = collect_arg_fields(e, arguments);
                    return Some((action_url(e, page), encode_query(&fields)));
                }
            }
        }
    }
    proof {
        lemma_first_where_is(nodes.deep_view(), test, nodes@.len() as int);
    }
    None
}

#[derive(Debug, Clone, Copy, PartialEq, Eq, Structural)]
pub enum Severity {
    /// Breaks the tool for any agent: missing or duplicate name, no
    /// description.
    Error,
    /// Works, but likely not what the author intended.
    Warning,
    /// A caveat, or a matter of style.
    Info,
}

#[derive(Debug)]
pub struct LintFinding {
    pub severity: Severity,
    pub tool: String,
    pub message: String,
}

/// What a finding is, as a mathematical value.
#[verifier::ext_equal]
pub struct FindingView {
    pub severity: Severity,
    pub tool: Seq<char>,
    pub message: Seq<char>,
}

impl DeepView for LintFinding {
    type V = FindingView;

    open spec fn deep_view(&self) -> FindingView {
        FindingView { severity: self.severity, tool: self.tool@, message: self.message@ }
    }
}

/// A character that every tool-calling backend takes in a tool name.
pub open spec fn name_char(c: char) -> bool {
    'a' <= c <= 'z' || 'A' <= c <= 'Z' || '0' <= c <= '9' || c == '-' || c == '_'
}

pub open spec fn all_name_chars(s: Seq<char>) -> bool {
    forall|k: int| 0 <= k < s.len() ==> name_char(#[trigger] s[k])
}

pub open spec fn found(severity: Severity, tool: Seq<char>, message: Seq<char>) -> Seq<
    FindingView,
> {
    seq![FindingView { severity, tool, message }]
}

pub open spec fn name_findings(tool: Seq<char>) -> Seq<FindingView> {
    if all_white_space(tool) {
        found(Severity::Error, tool, "toolname esta vacio"@)
    } else if !all_name_chars(tool) {
        found(
            Severity::Warning,
            tool,
            "toolname '"@ + tool
                + "' tiene caracteres fuera de [A-Za-z0-9_-]; algunos backends de tool-calling lo rechazan"@,
        )
    } else {
        Seq::empty()
    }
}

pub open spec fn duplicate_findings(tool: Seq<char>, occurrences: nat) -> Seq<FindingView> {
    if occurrences > 1 {
        found(
            Severity::Error,
            tool,
            "hay "@ + decimal(occurrences) + " formularios con toolname '"@ + tool
                + "' en la pagina: un agente no puede distinguir cual invocar"@,
        )
    } else {
        Seq::empty()
    }
}

pub open spec fn description_findings(tool: Seq<char>, form: ElementView) -> Seq<FindingView> {
    if all_white_space(text_or_empty(form.tool_description)) {
        found(
            Severity::Error,
            tool,
            "falta tooldescription (obligatorio: sin descripcion el agente no sabe cuando usar la tool)"@,
        )
    } else {
        Seq::empty()
    }
}

pub open spec fn action_findings(tool: Seq<char>, form: ElementView) -> Seq<FindingView> {
    if form.href is None {
        found(
            Severity::Warning,
            tool,
            "el formulario no tiene 'action': el submit apuntara a la URL de la propia pagina, probablemente no es lo que se busca"@,
        )
    } else {
        Seq::empty()
    }
}

pub open spec fn method_findings(tool: Seq<char>, form: ElementView) -> Seq<FindingView> {
    match form.method {
        Some(method) if ascii_lower(method) == ascii_lower("post"@) => found(
            Severity::Info,
            tool,
            "method=\"post\": kite-lite solo puede simular un submit GET (browser_call_tool no reflejara el comportamiento real de este formulario) — probalo tambien en un navegador con WebMCP nativo"@,
        ),
        _ => Seq::empty(),
    }
}

pub open spec fn field_findings(tool: Seq<char>, e: ElementView) -> Seq<FindingView> {
    if !is_field(e) {
        Seq::empty()
    } else {
        match e.name {
            None => found(
                Severity::Warning,
                tool,
                "un <"@ + e.tag
                    + "> del formulario no tiene 'name': queda fuera del schema y el agente no podra completarlo"@,
            ),
            Some(name) => (if e.tool_param_description is None {
                found(
                    Severity::Info,
                    tool,
                    "el campo '"@ + name
                        + "' no tiene toolparamdescription; no es obligatorio pero ayuda al agente a completarlo bien"@,
                )
            } else {
                Seq::empty()
            }) + (if e.tag == "select"@ && options_of(e).len() == 0 {
                found(
                    Severity::Warning,
                    tool,
                    "<select name=\""@ + name
                        + "\"> no tiene ninguna <option>: el schema generado tendria un enum vacio"@,
                )
            } else {
                Seq::empty()
            }),
        }
    }
}

pub open spec fn field_check(tool: Seq<char>) -> spec_fn(ElementView) -> Seq<FindingView> {
    |e: ElementView| field_findings(tool, e)
}

/// What the linter says of one form, of which the page has `occurrences`
/// with its name.
pub open spec fn form_findings(form: ElementView, occurrences: nat) -> Seq<FindingView> {
    let tool = text_or_empty(form.tool_name);
    name_findings(tool) + duplicate_findings(tool, occurrences) + description_findings(tool, form)
        + action_findings(tool, form) + method_findings(tool, form) + gather(
        preorder(form),
        field_check(tool),
    )
}

pub open spec fn form_pick() -> spec_fn(ElementView) -> Seq<ElementView> {
    |e: ElementView|
        if declares_tool(e) {
            seq![e]
        } else {
            Seq::empty()
        }
}

pub open spec fn same_name(form: ElementView) -> spec_fn(ElementView) -> bool {
    |e: ElementView| text_or_empty(e.tool_name) == text_or_empty(form.tool_name)
}

pub open spec fn form_check(forms: Seq<ElementView>) -> spec_fn(ElementView) -> Seq<FindingView> {
    |form: ElementView| form_findings(form, count_where(forms, same_name(form)))
}

/// The forms of a page that declare a tool.
pub open spec fn tool_forms(page: PageView) -> Seq<ElementView> {
    gather(preorder(page.root), form_pick())
}

/// What the linter says of a page.
pub open spec fn findings_of(page: PageView) -> Seq<FindingView> {
    gather(tool_forms(page), form_check(tool_forms(page)))
}

/// Adds a finding.
pub fn add_finding(
    findings: &mut Vec<LintFinding>,
    severity: Severity,
    tool: &str,
    message: String,
)
    ensures
        final(findings).deep_view() == old(findings).deep_view() + found(
            severity,
            tool@,
            message@,
        ),
{
    let ghost before = findings.deep_view();
    findings.push(LintFinding { severity, tool: tool.to_owned(), message });
    assert(findings.deep_view() =~= before + found(severity, tool@, message@));
}

fn has_only_name_chars(name: &str) -> (yes: bool)
    ensures
        yes == all_name_chars(name@),
{
    for c in it: name.chars()
        invariant
            it.seq() == name@,
            forall|k: int| 0 <= k < it.index() ==> name_char(#[trigger] name@[k]),
    {
        if !(('a' <= c && c <= 'z') || ('A' <= c && c <= 'Z') || ('0' <= c && c <= '9') || c == '-'
            || c == '_') {
            assert(!name_char(name@[it.index() as int]));
            return false;
        }
    }
    true
}

fn lint_fields(form: &Element, tool: &str, findings: &mut Vec<LintFinding>)
    ensures
        final(findings).deep_view() == old(findings).deep_view() + gather(
            preorder(form.deep_view()),
            field_check(tool@),
        ),
{
    let nodes = nodes_of(form);
    let ghost before = findings.deep_view();
    let ghost listed = nodes.deep_view();
    assert(listed.take(0) =~= Seq::empty());
    assert(findings.deep_view() =~= before + gather(listed.take(0), field_check(tool@)));
    for i in 0..nodes.len()
        invariant
            listed == nodes.deep_view(),
            findings.deep_view() == before + gather(listed.take(i as int), field_check(tool@)),
    {
        let e = nodes[i];
        let ghost held = findings.deep_view();
        proof {
            assert(listed.take(i + 1) =~= listed.take(i as int).push(e.deep_view()));
            lemma_gather_push(listed.take(i as int), e.deep_view(), field_check(tool@));
        }
        if same_text(e.tag.as_str(), "input") || same_text(e.tag.as_str(), "textarea")
            || same_text(e.tag.as_str(), "select") {
            match &e.name {
                None => {
                    let message = "un <".to_owned().concat(e.tag.as_str()).concat(
                        "> del formulario no tiene 'name': queda fuera del schema y el agente no podra completarlo",
                    );
                    add_finding(findings, Severity::Warning, tool, message);
                },
                Some(name) => {
                    if e.tool_param_description.is_none() {
                        let message = "el campo '".to_owned().concat(name.as_str()).concat(
                            "' no tiene toolparamdescription; no es obligatorio pero ayuda al agente a completarlo bien",
                        );
                        add_finding(findings, Severity::Info, tool, message);
                    }
                    if same_text(e.tag.as_str(), "select") && option_values(e).len() == 0 {
                        let message = "<select name=\"".to_owned().concat(name.as_str()).concat(
                            "\"> no tiene ninguna <option>: el schema generado tendria un enum vacio",
                        );
                        add_finding(findings, Severity::Warning, tool, message);
                    }
                },
            }
        }
        assert(findings.deep_view() =~= held + field_findings(tool@, e.deep_view()));
        assert(findings.deep_view() =~= before + gather(listed.take(i + 1), field_check(tool@)));
    }
    assert(listed.take(listed.len() as int) =~= listed);
}

fn lint_form(form: &Element, occurrences: usize) -> (findings: Vec<LintFinding>)
    ensures
        findings.deep_view() == form_findings(form.deep_view(), occurrences as nat),
{
    let mut findings: Vec<LintFinding> = Vec::new();
    let ghost f = form.deep_view();
    assert(findings.deep_view() =~= Seq::empty());
    let name = or_empty(&form.tool_name);
    if is_blank(name) {
        add_finding(&mut findings, Severity::Error, name, "toolname esta vacio".to_owned());
    } else if !has_only_name_chars(name) {
        let message = "toolname '".to_owned().concat(name).concat(
            "' tiene caracteres fuera de [A-Za-z0-9_-]; algunos backends de tool-calling lo rechazan",
        );
        add_finding(&mut findings, Severity::Warning, name, message);
    }
    assert(findings.deep_view() =~= name_findings(name@));
    let ghost held = findings.deep_view();

    if occurrences > 1 {
        let message = "hay ".to_owned().concat(decimal_text(occurrences as u128).as_str()).concat(
            " formularios con toolname '",
        ).concat(name).concat("' en la pagina: un agente no puede distinguir cual invocar");
        add_finding(&mut findings, Severity::Error, name, message);
    }
    assert(findings.deep_view() =~= held + duplicate_findings(name@, occurrences as nat));
    let ghost held = findings.deep_view();

    if is_blank(or_empty(&form.tool_description)) {
        add_finding(
            &mut findings,
            Severity::Error,
            name,
            "falta tooldescription (obligatorio: sin descripcion el agente no sabe cuando usar la tool)".to_owned(),
        );
    }
    assert(findings.deep_view() =~= held + description_findings(name@, f));
    let ghost held = findings.deep_view();

    if form.href.is_none() {
        add_finding(
            &mut findings,
            Severity::Warning,
            name,
            "el formulario no tiene 'action': el submit apuntara a la URL de la propia pagina, probablemente no es lo que se busca".to_owned(),
        );
    }
    assert(findings.deep_view() =~= held + action_findings(name@, f));
    let ghost held = findings.deep_view();

    if let Some(method) = &form.method {
        if same_ignoring_case(method.as_str(), "post") {
            add_finding(
                &mut findings,
                Severity::Info,
                name,
                "method=\"post\": kite-lite solo puede simular un submit GET (browser_call_tool no reflejara el comportamiento real de este formulario) — probalo tambien en un navegador con WebMCP nativo".to_owned(),
            );
        }
    }
    assert(findings.deep_view() =~= held + method_findings(name@, f));

    lint_fields(form, name, &mut findings);
    findings
}

fn collect_tool_forms<'a>(nodes: &Vec<&'a Element>) -> (forms: Vec<&'a Element>)
    ensures
        forms.deep_view() == gather(nodes.deep_view(), form_pick()),
{
    let ghost listed = nodes.deep_view();
    let mut forms: Vec<&'a Element> = Vec::new();
    assert(listed.take(0) =~= Seq::empty());
    assert(forms.deep_view() =~= Seq::empty());
    for i in 0..nodes.len()
        invariant
            listed == nodes.deep_view(),
            forms.deep_view() == gather(listed.take(i as int), form_pick()),
    {
        let e = nodes[i];
        let ghost held = forms.deep_view();
        proof {
            assert(listed.take(i + 1) =~= listed.take(i as int).push(e.deep_view()));
            lemma_gather_push(listed.take(i as int), e.deep_view(), form_pick());
        }
        if has_tool(e) {
            forms.push(e);
        }
        assert(forms.deep_view() =~= held + form_pick()(e.deep_view()));
    }
    assert(listed.take(listed.len() as int) =~= listed);
    forms
}

fn count_same_name(forms: &Vec<&Element>, form: &Element) -> (count: usize)
    ensures
        count == count_where(forms.deep_view(), same_name(form.deep_view())),
{
    let ghost listed = forms.deep_view();
    let ghost test = same_name(form.deep_view());
    let mut count: usize = 0;
    assert(listed.take(0) =~= Seq::empty());
    for i in 0..forms.len()
        invariant
            listed == forms.deep_view(),
            test == same_name(form.deep_view()),
            count <= i,
            count == count_where(listed.take(i as int), test),
    {
        let e = forms[i];
        proof {
            assert(listed.take(i + 1) =~= listed.take(i as int).push(e.deep_view()));
            lemma_count_push(listed.take(i as int), e.deep_view(), test);
        }
        if same_text(or_empty(&e.tool_name), or_empty(&form.tool_name)) {
            count = count + 1;
        }
    }
    assert(listed.take(listed.len() as int) =~= listed);
    count
}

/// Checks every `<form toolname="...">` of a page against a handful of
/// practical rules. A form without a `toolname` is not looked at.
pub fn lint(page: &Page) -> (findings: Vec<LintFinding>)
    ensures
        findings.deep_view() == findings_of(page.deep_view()),
{
    let forms = collect_tool_forms(&nodes_of(&page.root));
    let ghost listed = forms.deep_view();
    let mut findings: Vec<LintFinding> = Vec::new();
    assert(listed.take(0) =~= Seq::empty());
    assert(findings.deep_view() =~= Seq::empty());
    for i in 0..forms.len()
        invariant
            listed == forms.deep_view(),
            findings.deep_view() == gather(listed.take(i as int), form_check(listed)),
    {
        let form = forms[i];
        proof {
            assert(listed.take(i + 1) =~= listed.take(i as int).push(form.deep_view()));
            lemma_gather_push(listed.take(i as int), form.deep_view(), form_check(listed));
        }
        let ghost held = findings.deep_view();
        let mut own = lint_form(form, count_same_name(&forms, form));
        let ghost added = own.deep_view();
        findings.append(&mut own);
        assert(findings.deep_view() =~= held + added);
    }
    assert(listed.take(listed.len() as int) =~= listed);
    findings
}

proof fn lemma_tool_in(nodes: Seq<ElementView>, tool_name: Seq<char>)
    ensures
        (exists|k: int|
            0 <= k < gather(nodes, tool_pick()).len() && (#[trigger] gather(
                nodes,
                tool_pick(),
            )[k]).name == tool_name) <==> first_where(nodes, tool_test(tool_name)) < nodes.len(),
    decreases nodes.len(),
{
    let test = tool_test(tool_name);
    let tools = gather(nodes, tool_pick());
    lemma_first_where(nodes, test);
    if nodes.len() > 0 {
        let head = nodes.drop_last();
        let last = nodes.last();
        let before = gather(head, tool_pick());
        lemma_tool_in(head, tool_name);
        lemma_first_where(head, test);
        if first_where(head, test) < head.len() {
            let k = choose|k: int| 0 <= k < before.len() && (#[trigger] before[k]).name == tool_name;
            assert(tools[k] == before[k]);
            assert(test(nodes[first_where(head, test)]));
            lemma_first_where_is(nodes, test, first_where(head, test));
        } else if test(last) {
            assert(tools[before.len() as int] == tool_of(last));
            assert forall|k: int| 0 <= k < nodes.len() - 1 implies !test(#[trigger] nodes[k]) by {
                assert(head[k] == nodes[k]);
            }
            lemma_first_where_is(nodes, test, nodes.len() - 1);
        } else {
            assert forall|k: int| 0 <= k < nodes.len() implies !test(#[trigger] nodes[k]) by {
                if k < nodes.len() - 1 {
                    assert(head[k] == nodes[k]);
                }
            }
            lemma_first_where_is(nodes, test, nodes.len() as int);
            assert forall|k: int| 0 <= k < tools.len() implies (#[trigger] tools[k]).name
                != tool_name by {
                if k < before.len() {
                    assert(tools[k] == before[k]);
                } else {
                    assert(tools[k] == tool_of(last));
                }
            }
        }
    }
}

/// The tools that can be called are those that are listed: calling by a name
/// submits something if and only if a tool of that name is among the page's
/// tools.
pub proof fn law_listed_tools_can_be_called(
    page: PageView,
    tool_name: Seq<char>,
    arguments: JsonView,
)
    ensures
        submission_of(page, tool_name, arguments) is Some <==> exists|k: int|
            0 <= k < tools_of(page).len() && (#[trigger] tools_of(page)[k]).name == tool_name,
{
    lemma_tool_in(preorder(page.root), tool_name);
}

/// Whether a key is among the entries.
pub open spec fn has_key(entries: Seq<(Seq<char>, JsonView)>, key: Seq<char>) -> bool {
    exists|k: int| 0 <= k < entries.len() && (#[trigger] entries[k]).0 == key
}

pub open spec fn keys_differ(entries: Seq<(Seq<char>, JsonView)>) -> bool {
    forall|i: int, j: int|
        0 <= i < j < entries.len() ==> (#[trigger] entries[i]).0 != (#[trigger] entries[j]).0
}

proof fn lemma_inserted(
    entries: Seq<(Seq<char>, JsonView)>,
    key: Seq<char>,
    value: JsonView,
    other: Seq<char>,
)
    requires
        keys_differ(entries),
    ensures
        keys_differ(inserted(entries, key, value)),
        has_key(inserted(entries, key, value), other) <==> (other == key || has_key(
            entries,
            other,
        )),
{
    let test = json_key_test(key);
    let at = first_where(entries, test);
    let new = inserted(entries, key, value);
    lemma_first_where(entries, test);
    if at < entries.len() {
        assert(test(entries[at]));
        assert(new[at].0 == key);
        if has_key(entries, other) {
            let k = choose|k: int| 0 <= k < entries.len() && (#[trigger] entries[k]).0 == other;
            assert(new[k].0 == other);
        }
        if has_key(new, other) {
            let k = choose|k: int| 0 <= k < new.len() && (#[trigger] new[k]).0 == other;
            assert(entries[k].0 == other);
        }
    } else {
        assert(new[entries.len() as int].0 == key);
        if has_key(entries, other) {
            let k = choose|k: int| 0 <= k < entries.len() && (#[trigger] entries[k]).0 == other;
            assert(new[k].0 == other);
        }
        if has_key(new, other) {
            let k = choose|k: int| 0 <= k < new.len() && (#[trigger] new[k]).0 == other;
            if k < entries.len() {
                assert(entries[k].0 == other);
            }
        }
        assert forall|i: int, j: int| 0 <= i < j < new.len() implies (#[trigger] new[i]).0 != (
        #[trigger] new[j]).0 by {
            assert(entries[i] == new[i]);
            if j == entries.len() {
                assert(!test(entries[i]));
            } else {
                assert(entries[j] == new[j]);
            }
        }
    }
}

/// The schema of a tool has one property for each name that a field of the
/// form has, and no other.
pub proof fn law_schema_has_each_named_field(nodes: Seq<ElementView>, name: Seq<char>)
    ensures
        keys_differ(properties_of(nodes)),
        has_key(properties_of(nodes), name) <==> exists|k: int|
            0 <= k < nodes.len() && field_name_of(#[trigger] nodes[k]) == Some(name),
    decreases nodes.len(),
{
    if nodes.len() > 0 {
        let head = nodes.drop_last();
        let last = nodes.last();
        law_schema_has_each_named_field(head, name);
        if let Some(own) = field_name_of(last) {
            lemma_inserted(properties_of(head), own, field_schema(last), name);
        }
        assert(nodes[nodes.len() - 1] == last);
        if exists|k: int| 0 <= k < head.len() && field_name_of(#[trigger] head[k]) == Some(name) {
            let k = choose|k: int|
                0 <= k < head.len() && field_name_of(#[trigger] head[k]) == Some(name);
            assert(nodes[k] == head[k]);
        }
        if exists|k: int| 0 <= k < nodes.len() && field_name_of(#[trigger] nodes[k]) == Some(
            name,
        ) {
            let k = choose|k: int|
                0 <= k < nodes.len() && field_name_of(#[trigger] nodes[k]) == Some(name);
            if k < head.len() {
                assert(head[k] == nodes[k]);
            }
        }
    }
}

/// Whether one of the findings is an error.
pub open spec fn has_error(findings: Seq<FindingView>) -> bool {
    exists|k: int| 0 <= k < findings.len() && (#[trigger] findings[k]).severity == Severity::Error
}

proof fn lemma_has_error_add(a: Seq<FindingView>, b: Seq<FindingView>)
    ensures
        has_error(a + b) <==> has_error(a) || has_error(b),
{
    if has_error(a) {
        let k = choose|k: int| 0 <= k < a.len() && (#[trigger] a[k]).severity == Severity::Error;
        assert((a + b)[k] == a[k]);
    }
    if has_error(b) {
        let k = choose|k: int| 0 <= k < b.len() && (#[trigger] b[k]).severity == Severity::Error;
        assert((a + b)[a.len() + k] == b[k]);
    }
    if has_error(a + b) {
        let k = choose|k: int|
            0 <= k < (a + b).len() && (#[trigger] (a + b)[k]).severity == Severity::Error;
        if k < a.len() {
            assert(a[k] == (a + b)[k]);
        } else {
            assert(b[k - a.len()] == (a + b)[k]);
        }
    }
}

proof fn lemma_found_error(severity: Severity, tool: Seq<char>, message: Seq<char>)
    ensures
        has_error(found(severity, tool, message)) <==> severity == Severity::Error,
{
    if severity == Severity::Error {
        assert(found(severity, tool, message)[0].severity == Severity::Error);
    }
}

proof fn lemma_no_field_error(tool: Seq<char>, nodes: Seq<ElementView>)
    ensures
        !has_error(gather(nodes, field_check(tool))),
    decreases nodes.len(),
{
    if nodes.len() > 0 {
        lemma_no_field_error(tool, nodes.drop_last());
        lemma_has_error_add(
            gather(nodes.drop_last(), field_check(tool)),
            field_findings(tool, nodes.last()),
        );
    }
}

/// A tool that no agent can use: without a name or with one that another
/// tool of the page has too, or without a description.
pub open spec fn is_broken(form: ElementView, forms: Seq<ElementView>) -> bool {
    ||| all_white_space(text_or_empty(form.tool_name))
    ||| count_where(forms, same_name(form)) > 1
    ||| all_white_space(text_or_empty(form.tool_description))
}

proof fn lemma_form_error(form: ElementView, forms: Seq<ElementView>)
    ensures
        has_error(form_check(forms)(form)) <==> is_broken(form, forms),
{
    let tool = text_or_empty(form.tool_name);
    let a = name_findings(tool);
    let b = duplicate_findings(tool, count_where(forms, same_name(form)));
    let c = description_findings(tool, form);
    let d = action_findings(tool, form);
    let e = method_findings(tool, form);
    let f = gather(preorder(form), field_check(tool));
    lemma_has_error_add(a, b);
    lemma_has_error_add(a + b, c);
    lemma_has_error_add(a + b + c, d);
    lemma_has_error_add(a + b + c + d, e);
    lemma_has_error_add(a + b + c + d + e, f);
    lemma_no_field_error(tool, preorder(form));
    if a.len() > 0 {
        lemma_found_error(a[0].severity, tool, a[0].message);
        assert(a =~= found(a[0].severity, tool, a[0].message));
    }
    if b.len() > 0 {
        lemma_found_error(Severity::Error, tool, b[0].message);
        assert(b =~= found(Severity::Error, tool, b[0].message));
    }
    if c.len() > 0 {
        lemma_found_error(Severity::Error, tool, c[0].message);
        assert(c =~= found(Severity::Error, tool, c[0].message));
    }
}

proof fn lemma_forms_error(some: Seq<ElementView>, forms: Seq<ElementView>)
    ensures
        has_error(gather(some, form_check(forms))) <==> exists|k: int|
            0 <= k < some.len() && is_broken(#[trigger] some[k], forms),
    decreases some.len(),
{
    if some.len() > 0 {
        let head = some.drop_last();
        lemma_forms_error(head, forms);
        lemma_form_error(some.last(), forms);
        lemma_has_error_add(gather(head, form_check(forms)), form_check(forms)(some.last()));
        assert(some[some.len() - 1] == some.last());
        if exists|k: int| 0 <= k < head.len() && is_broken(#[trigger] head[k], forms) {
            let k = choose|k: int| 0 <= k < head.len() && is_broken(#[trigger] head[k], forms);
            assert(some[k] == head[k]);
        }
        if exists|k: int| 0 <= k < some.len() && is_broken(#[trigger] some[k], forms) {
            let k = choose|k: int| 0 <= k < some.len() && is_broken(#[trigger] some[k], forms);
            if k < head.len() {
                assert(head[k] == some[k]);
            }
        }
    }
}

/// A page fails the build if and only if it declares a tool that no agent
/// can use; a form that declares none is never an error.
pub proof fn law_errors_are_broken_tools(page: PageView)
    ensures
        has_error(findings_of(page)) <==> exists|k: int|
            0 <= k < tool_forms(page).len() && is_broken(
                #[trigger] tool_forms(page)[k],
                tool_forms(page),
            ),
        tool_forms(page).len() == 0 ==> findings_of(page).len() == 0,
{
    lemma_forms_error(tool_forms(page), tool_forms(page));
}

/// Whether an element is a field of a form that is submitted under a name:
/// an `<input>`, a `<textarea>` or a `<select>`.
pub open spec fn is_named_field(e: ElementView) -> bool {
    e.name is Some && (e.tag == "input"@ || e.tag == "textarea"@ || e.tag == "select"@)
}

/// Calling a tool submits each field of the form that has a name, in document
/// order, and nothing else; and every one of them that the arguments hold a
/// value for, of whatever kind it is, with that value: a text as it is, any
/// other value as it is written in JSON. A field without an argument has the
/// value that it holds, a `<select>` its first option.
pub proof fn law_arguments_fill_the_fields(form: ElementView, arguments: JsonView)
    ensures
        lists(
            filled_fields(form, arguments),
            preorder(form),
            |e: ElementView| is_named_field(e),
            |e: ElementView|
                (
                    e.name->0,
                    match arguments.field(e.name->0) {
                        Some(JsonView::Str(text)) => text,
                        Some(value) => json_written(value),
                        None => if e.tag == "select"@ {
                            if options_of(e).len() > 0 {
                                options_of(e)[0]
                            } else {
                                Seq::empty()
                            }
                        } else {
                            match e.value {
                                Some(value) => value,
                                None => Seq::empty(),
                            }
                        },
                    },
                ),
        ),
{
    reveal_strlit("input");
    reveal_strlit("textarea");
    reveal_strlit("select");
    lemma_gather_lists(
        preorder(form),
        argument_pick(arguments),
        |e: ElementView| is_named_field(e),
        |e: ElementView|
            (
                e.name->0,
                match arguments.field(e.name->0) {
                    Some(JsonView::Str(text)) => text,
                    Some(value) => json_written(value),
                    None => if e.tag == "select"@ {
                        if options_of(e).len() > 0 {
                            options_of(e)[0]
                        } else {
                            Seq::empty()
                        }
                    } else {
                        match e.value {
                            Some(value) => value,
                            None => Seq::empty(),
                        }
                    },
                },
            ),
    );
}

/// What can be chosen in a `<select>`: of each `<option>` in it, in document
/// order and in a group or not, its value, else its text.
pub proof fn law_options_are_those_in_the_select(select: ElementView)
    ensures
        lists(
            options_of(select),
            preorder(select),
            |e: ElementView| e.tag == "option"@,
            |e: ElementView|
                match e.value {
                    Some(value) => value,
                    None => e.text,
                },
        ),
{
    lemma_gather_lists(
        preorder(select),
        option_pick(),
        |e: ElementView| e.tag == "option"@,
        |e: ElementView|
            match e.value {
                Some(value) => value,
                None => e.text,
            },
    );
}

/// Calling a tool submits the first form of the page that declares it, to
/// the form's action, else to the page's own address; where no form declares
/// it, nothing is submitted.
pub proof fn law_call_submits_the_first_form(
    page: PageView,
    tool_name: Seq<char>,
    arguments: JsonView,
    at: int,
)
    requires
        0 <= at <= preorder(page.root).len(),
        forall|k: int|
            0 <= k < at ==> !((#[trigger] preorder(page.root)[k]).tag == "form"@ && preorder(
                page.root,
            )[k].tool_name == Some(tool_name)),
        at < preorder(page.root).len() ==> preorder(page.root)[at].tag == "form"@ && preorder(
            page.root,
        )[at].tool_name == Some(tool_name),
    ensures
        at == preorder(page.root).len() ==> submission_of(page, tool_name, arguments) is None,
        at < preorder(page.root).len() ==> {
            let form = preorder(page.root)[at];
            submission_of(page, tool_name, arguments) == Some(
                (
                    match (form.href, page.url) {
                        (Some(href), _) => href,
                        (None, Some(url)) => url,
                        (None, None) => Seq::empty(),
                    },
                    query_of(filled_fields(form, arguments)),
                ),
            )
        },
{
    lemma_first_where_is(preorder(page.root), tool_test(tool_name), at);
}

/// Every argument counts: two calls of a tool that give one field of its form
/// different texts submit different queries, be the field an `<input>`, a
/// `<textarea>` or a `<select>`.
pub proof fn law_every_argument_counts(
    page: PageView,
    tool_name: Seq<char>,
    a: JsonView,
    b: JsonView,
    at: int,
    i: int,
)
    requires
        0 <= at < preorder(page.root).len(),
        forall|k: int|
            0 <= k < at ==> !((#[trigger] preorder(page.root)[k]).tag == "form"@ && preorder(
                page.root,
            )[k].tool_name == Some(tool_name)),
        preorder(page.root)[at].tag == "form"@ && preorder(page.root)[at].tool_name == Some(
            tool_name,
        ),
        0 <= i < preorder(preorder(page.root)[at]).len(),
        ({
            let e = preorder(preorder(page.root)[at])[i];
            let name = e.name->0;
            &&& e.name is Some && (e.tag == "input"@ || e.tag == "textarea"@ || e.tag
                == "select"@)
            &&& a.field(name) matches Some(JsonView::Str(_))
            &&& b.field(name) matches Some(JsonView::Str(_))
            &&& a.field(name) != b.field(name)
        }),
    ensures
        submission_of(page, tool_name, a) is Some,
        submission_of(page, tool_name, b) is Some,
        (submission_of(page, tool_name, a)->Some_0).1 != (submission_of(
            page,
            tool_name,
            b,
        )->Some_0).1,
{
    let form = preorder(page.root)[at];
    let nodes = preorder(form);
    let x = filled_fields(form, a);
    let y = filled_fields(form, b);
    law_call_submits_the_first_form(page, tool_name, a, at);
    law_call_submits_the_first_form(page, tool_name, b, at);
    let p = |e: ElementView| is_named_field(e);
    let g = |e: ElementView| argument_pick(a)(e)[0];
    let h = |e: ElementView| argument_pick(b)(e)[0];
    lemma_gather_lists(nodes, argument_pick(a), p, g);
    lemma_gather_lists(nodes, argument_pick(b), p, h);
    if query_of(x) == query_of(y) {
        law_query_tells_the_fields(x, y);
        lemma_lists_agree(x, nodes, p, g, h, i);
    }
}

/// The tools of a page are what its forms with a `toolname` declare, in
/// document order; each has the name and the description of its form.
pub proof fn law_tools_are_the_declared_forms(page: PageView)
    ensures
        lists(
            tools_of(page),
            preorder(page.root),
            |e: ElementView| e.tag == "form"@ && e.tool_name is Some,
            |e: ElementView|
                ToolView {
                    name: e.tool_name->0,
                    description: match e.tool_description {
                        Some(description) => description,
                        None => Seq::empty(),
                    },
                    autosubmit: e.tool_autosubmit,
                    input_schema: tool_of(e).input_schema,
                },
        ),
{
    lemma_gather_lists(
        preorder(page.root),
        tool_pick(),
        |e: ElementView| e.tag == "form"@ && e.tool_name is Some,
        |e: ElementView|
            ToolView {
                name: e.tool_name->0,
                description: match e.tool_description {
                    Some(description) => description,
                    None => Seq::empty(),
                },
                autosubmit: e.tool_autosubmit,
                input_schema: tool_of(e).input_schema,
            },
    );
}

/// The schema of a tool says of each named field what it takes, and lists
/// those that are required. A `<select>` takes one of its options, a checkbox
/// a truth value, a number field a number, anything else a text.
pub proof fn law_schema_says_what_fields_take(form: ElementView, e: ElementView)
    ensures
        ({
            let schema = tool_of(form).input_schema;
            &&& schema.field("type"@) == Some(JsonView::Str("object"@))
            &&& schema.field("properties"@) == Some(
                JsonView::Object(properties_of(preorder(form))),
            )
            &&& schema.field("required"@) matches Some(JsonView::Array(names)) && lists(
                names,
                preorder(form),
                |x: ElementView| is_named_field(x) && x.required,
                |x: ElementView| JsonView::Str(x.name->0),
            )
        }),
        ({
            let takes = |word: Seq<char>|
                field_schema(e).field("type"@) == Some(JsonView::Str(word));
            &&& e.tag == "select"@ ==> takes("string"@)
            &&& e.tag != "select"@ && e.kind == Some("checkbox"@) ==> takes("boolean"@)
            &&& e.tag != "select"@ && e.kind == Some("number"@) ==> takes("number"@)
            &&& e.tag != "select"@ && e.kind != Some("checkbox"@) && e.kind != Some("number"@)
                ==> takes("string"@)
        }),
        e.tag == "select"@ ==> field_schema(e).field("enum"@) == Some(
            JsonView::Array(options_of(e).map_values(|s: Seq<char>| JsonView::Str(s))),
        ),
        e.tag != "select"@ ==> field_schema(e).field("enum"@) is None,
        match e.tool_param_description {
            Some(words) => field_schema(e).field("description"@) == Some(JsonView::Str(words)),
            None => field_schema(e).field("description"@) is None,
        },
{
    lemma_key_lengths();
    let schema = tool_of(form).input_schema;
    let entries = schema->Object_0;
    let nodes = preorder(form);
    law_field_is_the_first_of_its_key(entries, "type"@, 0);
    law_field_is_the_first_of_its_key(entries, "properties"@, 1);
    law_field_is_the_first_of_its_key(entries, "required"@, 2);
    let p = |x: ElementView| is_named_field(x) && x.required;
    reveal_strlit("input");
    reveal_strlit("textarea");
    reveal_strlit("select");
    lemma_gather_lists(nodes, required_pick(), p, |x: ElementView| x.name->0);
    let required = gather(nodes, required_pick());
    let at = choose|at: Seq<int>|
        {
            &&& #[trigger] are_places(at, nodes, p)
            &&& required.len() == at.len()
            &&& forall|k: int|
                0 <= k < at.len() ==> required[k] == (|x: ElementView| x.name->0)(
                    nodes[#[trigger] at[k]],
                )
        };
    let names = schema.field("required"@)->0->Array_0;
    assert(are_places(at, nodes, p) && names.len() == at.len());
    assert forall|k: int| 0 <= k < at.len() implies names[k] == (|x: ElementView|
        JsonView::Str(x.name->0))(nodes[#[trigger] at[k]]) by {
        assert(required[k] == nodes[at[k]].name->0);
    }
    assert(json_strings(options_of(e))->Array_0 =~= options_of(e).map_values(
        |s: Seq<char>| JsonView::Str(s),
    ));
    let own = field_schema(e)->Object_0;
    law_field_is_the_first_of_its_key(own, "type"@, 0);
    law_field_is_the_first_of_its_key(
        own,
        "enum"@,
        if e.tag == "select"@ {
            1
        } else {
            own.len() as int
        },
    );
    law_field_is_the_first_of_its_key(
        own,
        "description"@,
        if e.tool_param_description is Some {
            own.len() - 1
        } else {
            own.len() as int
        },
    );
}

proof fn lemma_key_lengths()
    ensures
        "type"@ != "enum"@,
        "type"@ != "description"@,
        "enum"@ != "description"@,
        "type"@ != "properties"@,
        "type"@ != "required"@,
        "properties"@ != "required"@,
        "checkbox"@ != "number"@,
{
    reveal_strlit("type");
    reveal_strlit("enum");
    reveal_strlit("description");
    reveal_strlit("properties");
    reveal_strlit("required");
    reveal_strlit("checkbox");
    reveal_strlit("number");
    assert("type"@[0] == 't' && "enum"@[0] == 'e');
    assert("description"@.len() == 11 && "properties"@.len() == 10 && "required"@.len() == 8);
    assert("checkbox"@.len() == 8 && "number"@.len() == 6);
}

/// Of two fields of one name the later is what the schema speaks of.
pub proof fn law_schema_has_the_last_of_a_name(nodes: Seq<ElementView>, i: int)
    requires
        0 <= i < nodes.len(),
        is_named_field(nodes[i]),
        forall|k: int|
            i < k < nodes.len() ==> !(is_named_field(#[trigger] nodes[k]) && nodes[k].name
                == nodes[i].name),
    ensures
        JsonView::Object(properties_of(nodes)).field(nodes[i].name->0) == Some(
            field_schema(nodes[i]),
        ),
    decreases nodes.len(),
{
    reveal_strlit("input");
    reveal_strlit("textarea");
    reveal_strlit("select");
    let head = nodes.drop_last();
    let last = nodes.last();
    let before = properties_of(head);
    let name = nodes[i].name->0;
    let new = properties_of(nodes);
    let test = json_key_test(name);
    assert(nodes[nodes.len() - 1] == last);
    law_schema_has_each_named_field(head, name);
    lemma_first_where(before, test);
    if i == nodes.len() - 1 {
        let at = first_where(before, test);
        lemma_first_where_is(new, test, at);
    } else {
        assert forall|k: int| i < k < head.len() implies !(is_named_field(#[trigger] head[k])
            && head[k].name == head[i].name) by {
            assert(head[k] == nodes[k]);
        }
        assert(head[i] == nodes[i]);
        law_schema_has_the_last_of_a_name(head, i);
        let at = first_where(before, test);
        if let Some(own) = field_name_of(last) {
            let other = json_key_test(own);
            lemma_first_where(before, other);
            assert(own != name);
            assert forall|k: int| 0 <= k < at implies !test(#[trigger] new[k]) by {
                if first_where(before, other) < before.len() && k == first_where(before, other) {
                    assert(new[k].0 == own);
                } else {
                    assert(new[k] == before[k]);
                }
            }
            assert(test(before[at]));
            if first_where(before, other) == at {
                assert(other(before[at]));
            }
            assert(new[at] == before[at]);
            lemma_first_where_is(new, test, at);
        }
    }
}

/// Whether a name has another character in it than letters, digits, `-` and
/// `_`.
pub open spec fn is_odd_name(name: Seq<char>) -> bool {
    exists|k: int|
        0 <= k < name.len() && !('a' <= #[trigger] name[k] <= 'z' || 'A' <= name[k] <= 'Z' || '0'
            <= name[k] <= '9' || name[k] == '-' || name[k] == '_')
}

/// What the linter finds of a tool goes by its form: a name of white space,
/// or one with other characters than letters, digits, `-` and `_`; a name
/// that other forms have too; no description; no action; `post` for a method;
/// and then what it finds of its fields. Each is one finding on that tool.
pub proof fn law_findings_go_by_the_form(form: ElementView, occurrences: nat)
    ensures
        ({
            let found = form_findings(form, occurrences);
            let tool = match form.tool_name {
                Some(name) => name,
                None => Seq::empty(),
            };
            let blank = words(tool).len() == 0;
            let odd = is_odd_name(tool);
            let a: int = if blank || odd {
                1
            } else {
                0
            };
            let b: int = a + if occurrences > 1 {
                1int
            } else {
                0
            };
            let c: int = b + if form.tool_description is None || words(
                form.tool_description->0,
            ).len() == 0 {
                1int
            } else {
                0
            };
            let d: int = c + if form.href is None {
                1int
            } else {
                0
            };
            let e: int = d + if form.method is Some && ascii_lower(form.method->0) == "post"@ {
                1int
            } else {
                0
            };
            &&& found.len() >= e
            &&& a > 0 ==> found[0].tool == tool && found[0].severity == if blank {
                Severity::Error
            } else {
                Severity::Warning
            }
            &&& b > a ==> found[a] == (FindingView {
                severity: Severity::Error,
                tool,
                message: "hay "@ + decimal(occurrences) + " formularios con toolname '"@ + tool
                    + "' en la pagina: un agente no puede distinguir cual invocar"@,
            })
            &&& c > b ==> found[b].tool == tool && found[b].severity == Severity::Error
            &&& d > c ==> found[c].tool == tool && found[c].severity == Severity::Warning
            &&& e > d ==> found[d].tool == tool && found[d].severity == Severity::Info
            &&& found.subrange(e, found.len() as int) == gather(
                preorder(form),
                |x: ElementView| field_findings(tool, x),
            )
        }),
{
    let tool = text_or_empty(form.tool_name);
    lemma_no_words(tool);
    lemma_no_words(text_or_empty(form.tool_description));
    assert(words(Seq::<char>::empty()).len() == 0);
    reveal_strlit("post");
    assert(ascii_lower("post"@) =~= "post"@);
    assert(field_check(tool) =~= (|x: ElementView| field_findings(tool, x)));
    let fields = gather(preorder(form), field_check(tool));
    let found = form_findings(form, occurrences);
    assert(found.subrange(found.len() - fields.len(), found.len() as int) =~= fields);
    if !all_name_chars(tool) {
        let k = choose|k: int| 0 <= k < tool.len() && !name_char(#[trigger] tool[k]);
        assert(!('a' <= tool[k] <= 'z'));
    }
}

/// What the linter finds of a field: that an `<input>`, a `<textarea>` or a
/// `<select>` has no name; or else that it has no description, and that it is
/// a `<select>` without an option. Of other elements it finds nothing.
pub proof fn law_findings_go_by_the_field(tool: Seq<char>, e: ElementView)
    ensures
        ({
            let found = field_findings(tool, e);
            let field = e.tag == "input"@ || e.tag == "textarea"@ || e.tag == "select"@;
            let plain = field && e.name is Some && e.tool_param_description is None;
            let empty = e.tag == "select"@ && e.name is Some && forall|k: int|
                0 <= k < preorder(e).len() ==> (#[trigger] preorder(e)[k]).tag != "option"@;
            &&& !field ==> found.len() == 0
            &&& field && e.name is None ==> found.len() == 1 && found[0].severity
                == Severity::Warning && found[0].tool == tool
            &&& field && e.name is Some ==> found.len() == (if plain {
                1int
            } else {
                0
            }) + (if empty {
                1int
            } else {
                0
            })
            &&& plain ==> found[0].severity == Severity::Info && found[0].tool == tool
            &&& empty ==> found.last().severity == Severity::Warning && found.last().tool == tool
        }),
{
    reveal_strlit("input");
    reveal_strlit("textarea");
    reveal_strlit("select");
    let p = |x: ElementView| x.tag == "option"@;
    let nodes = preorder(e);
    lemma_gather_counts(nodes, option_pick(), p);
    law_count_is_that_of_the_places(nodes, p);
    let at = choose|at: Seq<int>|
        #[trigger] are_places(at, nodes, p) && at.len() == count_where(nodes, p);
    if at.len() > 0 {
        assert(p(nodes[at[0]]));
    } else {
        assert forall|k: int| 0 <= k < nodes.len() implies (#[trigger] nodes[k]).tag
            != "option"@ by {
            if p(nodes[k]) {
                assert(at.contains(k));
            }
        }
    }
}

/// The linter looks at each form that declares a tool, in document order, and
/// counts how many of them have its name.
pub proof fn law_every_tool_is_linted(page: PageView)
    ensures
        lists(
            tool_forms(page),
            preorder(page.root),
            |e: ElementView| e.tag == "form"@ && e.tool_name is Some,
            |e: ElementView| e,
        ),
        findings_of(page) == gather(
            tool_forms(page),
            |form: ElementView|
                form_findings(
                    form,
                    count_where(
                        tool_forms(page),
                        |other: ElementView|
                            text_or_empty(other.tool_name) == text_or_empty(form.tool_name),
                    ),
                ),
        ),
{
    let forms = tool_forms(page);
    lemma_gather_lists(
        preorder(page.root),
        form_pick(),
        |e: ElementView| e.tag == "form"@ && e.tool_name is Some,
        |e: ElementView| e,
    );
    assert forall|form: ElementView| #[trigger] form_check(forms)(form) == form_findings(
        form,
        count_where(
            forms,
            |other: ElementView| text_or_empty(other.tool_name) == text_or_empty(form.tool_name),
        ),
    ) by {
        assert(same_name(form) =~= (|other: ElementView|
            text_or_empty(other.tool_name) == text_or_empty(form.tool_name)));
    }
    lemma_gather_same(
        forms,
        form_check(forms),
        |form: ElementView|
            form_findings(
                form,
                count_where(
                    forms,
                    |other: ElementView|
                        text_or_empty(other.tool_name) == text_or_empty(form.tool_name),
                ),
            ),
    );
}

/// What the linter says of a tool or a field names it.
pub proof fn law_findings_name_what_they_are_on(tool: Seq<char>, form: ElementView, e: ElementView)
    ensures
        words(tool).len() == 0 ==> name_findings(tool)[0].message == "toolname esta vacio"@,
        words(tool).len() > 0 && is_odd_name(tool) ==> name_findings(tool)[0].message
            == "toolname '"@ + tool
            + "' tiene caracteres fuera de [A-Za-z0-9_-]; algunos backends de tool-calling lo rechazan"@,
        ({
            let found = field_findings(tool, e);
            let field = e.tag == "input"@ || e.tag == "textarea"@ || e.tag == "select"@;
            &&& field && e.name is None ==> found[0].message == "un <"@ + e.tag
                + "> del formulario no tiene 'name': queda fuera del schema y el agente no podra completarlo"@
            &&& field && e.name is Some && e.tool_param_description is None ==> found[0].message
                == "el campo '"@ + e.name->0
                + "' no tiene toolparamdescription; no es obligatorio pero ayuda al agente a completarlo bien"@
            &&& e.tag == "select"@ && e.name is Some && options_of(e).len() == 0
                ==> found.last().message == "<select name=\""@ + e.name->0
                + "\"> no tiene ninguna <option>: el schema generado tendria un enum vacio"@
        }),
{
    reveal_strlit("input");
    reveal_strlit("textarea");
    reveal_strlit("select");
    lemma_no_words(tool);
    if is_odd_name(tool) {
        let k = choose|k: int|
            0 <= k < tool.len() && !('a' <= #[trigger] tool[k] <= 'z' || 'A' <= tool[k] <= 'Z'
                || '0' <= tool[k] <= '9' || tool[k] == '-' || tool[k] == '_');
        assert(!name_char(tool[k]));
    }
}

} // verus!
