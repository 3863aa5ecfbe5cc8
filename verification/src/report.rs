//! What the command line shows of the linters' findings, and what it takes
//! its arguments for.

use crate::a11y;
use crate::http::{format_named, output_format, OutputFormat};
use crate::seo;
use crate::seqs::{
    are_places, count_where, law_count_is_that_of_the_places, lemma_count_push, lemma_same_places,
};
use crate::social;
use crate::text::{
    ascii_lower, decimal, decimal_text, ends_with, stands_at, starts_with, to_ascii_lower,
};
use crate::webmcp;
use vstd::prelude::*;

verus! {

/// How grave a finding is.
#[derive(Debug, Clone, Copy, PartialEq, Eq, Structural)]
pub enum Level {
    Error,
    Warning,
    Info,
}

impl Level {
    pub open spec fn tag(self) -> Seq<char> {
        match self {
            Level::Error => "ERROR"@,
            Level::Warning => "WARN "@,
            Level::Info => "INFO "@,
        }
    }

    /// What is shown in front of a finding.
    pub fn label(self) -> (label: &'static str)
        ensures
            label@ == self.tag(),
    {
        match self {
            Level::Error => "ERROR",
            Level::Warning => "WARN ",
            Level::Info => "INFO ",
        }
    }
}

/// A finding as it is shown.
#[derive(Debug)]
pub struct Entry {
    pub level: Level,
    pub text: String,
}

/// A finding as it is shown, as a mathematical value.
#[verifier::ext_equal]
pub struct EntryView {
    pub level: Level,
    pub text: Seq<char>,
}

impl DeepView for Entry {
    type V = EntryView;

    open spec fn deep_view(&self) -> EntryView {
        EntryView { level: self.level, text: self.text@ }
    }
}

pub open spec fn a11y_level(severity: a11y::Severity) -> Level {
    match severity {
        a11y::Severity::Error => Level::Error,
        a11y::Severity::Warning => Level::Warning,
        a11y::Severity::Info => Level::Info,
    }
}

pub open spec fn seo_level(severity: seo::Severity) -> Level {
    match severity {
        seo::Severity::Error => Level::Error,
        seo::Severity::Warning => Level::Warning,
        seo::Severity::Info => Level::Info,
    }
}

pub open spec fn social_level(severity: social::Severity) -> Level {
    match severity {
        social::Severity::Error => Level::Error,
        social::Severity::Warning => Level::Warning,
        social::Severity::Info => Level::Info,
    }
}

pub open spec fn webmcp_level(severity: webmcp::Severity) -> Level {
    match severity {
        webmcp::Severity::Error => Level::Error,
        webmcp::Severity::Warning => Level::Warning,
        webmcp::Severity::Info => Level::Info,
    }
}

pub open spec fn a11y_entry() -> spec_fn(a11y::FindingView) -> EntryView {
    |f: a11y::FindingView| EntryView { level: a11y_level(f.severity), text: f.message }
}

pub open spec fn seo_entry() -> spec_fn(seo::FindingView) -> EntryView {
    |f: seo::FindingView| EntryView { level: seo_level(f.severity), text: f.message }
}

pub open spec fn social_entry() -> spec_fn(social::FindingView) -> EntryView {
    |f: social::FindingView| EntryView { level: social_level(f.severity), text: f.message }
}

/// A finding on a tool is shown with the tool's name.
pub open spec fn webmcp_entry() -> spec_fn(webmcp::FindingView) -> EntryView {
    |f: webmcp::FindingView|
        EntryView { level: webmcp_level(f.severity), text: f.tool + ": "@ + f.message }
}

/// The findings of the accessibility linter as they are shown.
pub fn a11y_entries(findings: &Vec<a11y::A11yFinding>) -> (entries: Vec<Entry>)
    ensures
        entries.deep_view() == findings.deep_view().map_values(a11y_entry()),
{
    let mut entries: Vec<Entry> = Vec::new();
    for i in 0..findings.len()
        invariant
            entries@.len() == i,
            forall|k: int|
                0 <= k < i ==> (#[trigger] entries@[k]).deep_view() == a11y_entry()(
                    findings@[k].deep_view(),
                ),
    {
        let level = match findings[i].severity {
            a11y::Severity::Error => Level::Error,
            a11y::Severity::Warning => Level::Warning,
            a11y::Severity::Info => Level::Info,
        };
        entries.push(Entry { level, text: findings[i].message.clone() });
    }
    assert(entries.deep_view() =~= findings.deep_view().map_values(a11y_entry()));
    entries
}

/// The findings of the SEO linter as they are shown.
pub fn seo_entries(findings: &Vec<seo::SeoFinding>) -> (entries: Vec<Entry>)
    ensures
        entries.deep_view() == findings.deep_view().map_values(seo_entry()),
{
    let mut entries: Vec<Entry> = Vec::new();
    for i in 0..findings.len()
        invariant
            entries@.len() == i,
            forall|k: int|
                0 <= k < i ==> (#[trigger] entries@[k]).deep_view() == seo_entry()(
                    findings@[k].deep_view(),
                ),
    {
        let level = match findings[i].severity {
            seo::Severity::Error => Level::Error,
            seo::Severity::Warning => Level::Warning,
            seo::Severity::Info => Level::Info,
        };
        entries.push(Entry { level, text: findings[i].message.clone() });
    }
    assert(entries.deep_view() =~= findings.deep_view().map_values(seo_entry()));
    entries
}

/// The findings of the preview linter as they are shown.
pub fn social_entries(findings: &Vec<social::SocialFinding>) -> (entries: Vec<Entry>)
    ensures
        entries.deep_view() == findings.deep_view().map_values(social_entry()),
{
    let mut entries: Vec<Entry> = Vec::new();
    for i in 0..findings.len()
        invariant
            entries@.len() == i,
            forall|k: int|
                0 <= k < i ==> (#[trigger] entries@[k]).deep_view() == social_entry()(
                    findings@[k].deep_view(),
                ),
    {
        let level = match findings[i].severity {
            social::Severity::Error => Level::Error,
            social::Severity::Warning => Level::Warning,
            social::Severity::Info => Level::Info,
        };
        entries.push(Entry { level, text: findings[i].message.clone() });
    }
    assert(entries.deep_view() =~= findings.deep_view().map_values(social_entry()));
    entries
}

/// The findings on tools as they are shown.
pub fn webmcp_entries(findings: &Vec<webmcp::LintFinding>) -> (entries: Vec<Entry>)
    ensures
        entries.deep_view() == findings.deep_view().map_values(webmcp_entry()),
{
    let mut entries: Vec<Entry> = Vec::new();
    for i in 0..findings.len()
        invariant
            entries@.len() == i,
            forall|k: int|
                0 <= k < i ==> (#[trigger] entries@[k]).deep_view() == webmcp_entry()(
                    findings@[k].deep_view(),
                ),
    {
        let level = match findings[i].severity {
            webmcp::Severity::Error => Level::Error,
            webmcp::Severity::Warning => Level::Warning,
            webmcp::Severity::Info => Level::Info,
        };
        let text = findings[i].tool.clone().concat(": ").concat(findings[i].message.as_str());
        entries.push(Entry { level, text });
    }
    assert(entries.deep_view() =~= findings.deep_view().map_values(webmcp_entry()));
    entries
}

pub open spec fn line_of() -> spec_fn(EntryView) -> Seq<char> {
    |entry: EntryView| "["@ + entry.level.tag() + "] "@ + entry.text
}

/// The lines that are shown: one for each finding, or one that says that
/// there is none.
pub open spec fn lines_of(entries: Seq<EntryView>, none: Seq<char>) -> Seq<Seq<char>> {
    if entries.len() == 0 {
        seq![none]
    } else {
        entries.map_values(line_of())
    }
}

/// The lines that are shown: one for each finding, or one that says that
/// there is none.
pub fn report_lines(entries: &Vec<Entry>, none: &str) -> (lines: Vec<String>)
    ensures
        lines.deep_view() == lines_of(entries.deep_view(), none@),
{
    let mut lines: Vec<String> = Vec::new();
    if entries.len() == 0 {
        lines.push(none.to_owned());
        assert(lines.deep_view() =~= seq![none@]);
        return lines;
    }
    for i in 0..entries.len()
        invariant
            lines@.len() == i,
            forall|k: int|
                0 <= k < i ==> (#[trigger] lines@[k])@ == line_of()(entries@[k].deep_view()),
    {
        lines.push(
            "[".to_owned().concat(entries[i].level.label()).concat("] ").concat(
                entries[i].text.as_str(),
            ),
        );
    }
    assert(lines.deep_view() =~= entries.deep_view().map_values(line_of()));
    lines
}

pub open spec fn is_error() -> spec_fn(EntryView) -> bool {
    |entry: EntryView| entry.level == Level::Error
}

/// The reason to fail that findings are: how many errors there are among
/// them, if any.
pub open spec fn failure_of(entries: Seq<EntryView>, what: Seq<char>) -> Option<Seq<char>> {
    let count = count_where(entries, is_error());
    if count > 0 {
        Some(decimal(count) + " error(es) de "@ + what + " encontrados"@)
    } else {
        None
    }
}

/// The reason to fail that findings are: how many errors there are among
/// them, if any.
pub fn failure(entries: &Vec<Entry>, what: &str) -> (reason: Option<String>)
    ensures
        reason.deep_view() == failure_of(entries.deep_view(), what@),
{
    let ghost listed = entries.deep_view();
    let mut count: usize = 0;
    assert(listed.take(0) =~= Seq::empty());
    for i in 0..entries.len()
        invariant
            listed == entries.deep_view(),
            count <= i,
            count == count_where(listed.take(i as int), is_error()),
    {
        let ghost entry = entries@[i as int].deep_view();
        proof {
            assert(listed.take(i + 1) =~= listed.take(i as int).push(entry));
            lemma_count_push(listed.take(i as int), entry, is_error());
        }
        if entries[i].level == Level::Error {
            count = count + 1;
        }
    }
    assert(listed.take(listed.len() as int) =~= listed);
    if count > 0 {
        Some(
            decimal_text(count as u128).concat(" error(es) de ").concat(what).concat(
                " encontrados",
            ),
        )
    } else {
        None
    }
}

/// The text that is there, or what is shown in its place.
pub open spec fn shown(text: Option<Seq<char>>, none: Seq<char>) -> Seq<char> {
    match text {
        Some(text) => text,
        None => none,
    }
}

/// The lines that show a preview.
pub open spec fn preview_text(preview: social::PreviewView) -> Seq<Seq<char>> {
    seq![
        "Titulo:      "@ + shown(preview.title, "(ninguno)"@),
        "Descripcion: "@ + shown(preview.description, "(ninguna)"@),
        "Imagen:      "@ + shown(preview.image, "(ninguna)"@),
    ]
}

fn shown_text<'a>(text: &'a Option<String>, none: &'a str) -> (s: &'a str)
    ensures
        s@ == shown(text.deep_view(), none@),
{
    match text {
        Some(text) => text.as_str(),
        None => none,
    }
}

/// The lines that show a preview.
pub fn preview_lines(preview: &social::SocialPreview) -> (lines: Vec<String>)
    ensures
        lines.deep_view() == preview_text(preview.deep_view()),
{
    let mut lines: Vec<String> = Vec::new();
    lines.push("Titulo:      ".to_owned().concat(shown_text(&preview.title, "(ninguno)")));
    lines.push("Descripcion: ".to_owned().concat(shown_text(&preview.description, "(ninguna)")));
    lines.push("Imagen:      ".to_owned().concat(shown_text(&preview.image, "(ninguna)")));
    assert(lines.deep_view() =~= preview_text(preview.deep_view()));
    lines
}

/// Where a page is to be had from.
#[derive(Debug, Clone, Copy, PartialEq, Eq, Structural)]
pub enum PageSource {
    /// From the network.
    Url,
    /// From a file that holds a page that was fetched before.
    Snapshot,
    /// From a file that holds HTML.
    Html,
}

/// What an argument that stands for a page means.
pub open spec fn source_of(target: Seq<char>) -> PageSource {
    if stands_at(target, "http://"@, 0) || stands_at(target, "https://"@, 0) {
        PageSource::Url
    } else if stands_at(target, ".json"@, target.len() - ".json"@.len()) {
        PageSource::Snapshot
    } else {
        PageSource::Html
    }
}

/// What an argument that stands for a page means.
pub fn page_source(target: &str) -> (source: PageSource)
    ensures
        source == source_of(target@),
{
    if starts_with(target, "http://") || starts_with(target, "https://") {
        PageSource::Url
    } else if ends_with(target, ".json") {
        PageSource::Snapshot
    } else {
        PageSource::Html
    }
}

/// The format that a file name asks for by its extension: SVG, if it asks
/// for no other.
pub open spec fn format_for(extension: Option<Seq<char>>) -> OutputFormat {
    match extension {
        Some(extension) => format_named(ascii_lower(extension)),
        None => OutputFormat::Svg,
    }
}

/// The format that a file name asks for by its extension.
pub fn format_of_extension(extension: Option<&str>) -> (format: OutputFormat)
    ensures
        format == format_for(extension.deep_view()),
{
    match extension {
        Some(extension) => output_format(to_ascii_lower(extension).as_str()),
        None => OutputFormat::Svg,
    }
}

/// Findings are a reason to fail if and only if there is an error among
/// them.
pub proof fn law_only_errors_fail(entries: Seq<EntryView>, what: Seq<char>)
    ensures
        failure_of(entries, what) is Some <==> exists|k: int|
            0 <= k < entries.len() && (#[trigger] entries[k]).level == Level::Error,
{
    lemma_errors_counted(entries);
}

proof fn lemma_errors_counted(entries: Seq<EntryView>)
    ensures
        count_where(entries, is_error()) > 0 <==> exists|k: int|
            0 <= k < entries.len() && (#[trigger] entries[k]).level == Level::Error,
    decreases entries.len(),
{
    if entries.len() > 0 {
        let head = entries.drop_last();
        lemma_errors_counted(head);
        assert(entries[entries.len() - 1] == entries.last());
        if exists|k: int| 0 <= k < head.len() && (#[trigger] head[k]).level == Level::Error {
            let k = choose|k: int|
                0 <= k < head.len() && (#[trigger] head[k]).level == Level::Error;
            assert(entries[k] == head[k]);
        }
        if exists|k: int| 0 <= k < entries.len() && (#[trigger] entries[k]).level == Level::Error {
            let k = choose|k: int|
                0 <= k < entries.len() && (#[trigger] entries[k]).level == Level::Error;
            if k < head.len() {
                assert(head[k] == entries[k]);
            }
        }
    }
}

/// Every finding has a line of its own, in order: its level in brackets, then
/// its text. Without findings there is the one line that says so.
pub proof fn law_every_finding_is_shown(entries: Seq<EntryView>, none: Seq<char>, k: int)
    requires
        0 <= k < entries.len(),
    ensures
        lines_of(entries, none).len() == entries.len(),
        lines_of(entries, none)[k] == "["@ + (match entries[k].level {
            Level::Error => "ERROR"@,
            Level::Warning => "WARN "@,
            Level::Info => "INFO "@,
        }) + "] "@ + entries[k].text,
        lines_of(Seq::empty(), none) == seq![none],
{
}

/// A finding keeps how grave it is and what it says; one on a tool says which
/// tool it is on.
pub proof fn law_findings_keep_their_level(
    a: a11y::FindingView,
    s: seo::FindingView,
    p: social::FindingView,
    t: webmcp::FindingView,
)
    ensures
        a11y_entry()(a).text == a.message,
        a11y_entry()(a).level is Error <==> a.severity is Error,
        a11y_entry()(a).level is Warning <==> a.severity is Warning,
        seo_entry()(s).text == s.message,
        seo_entry()(s).level is Error <==> s.severity is Error,
        seo_entry()(s).level is Warning <==> s.severity is Warning,
        social_entry()(p).text == p.message,
        social_entry()(p).level is Error <==> p.severity is Error,
        social_entry()(p).level is Warning <==> p.severity is Warning,
        webmcp_entry()(t).text == t.tool + ": "@ + t.message,
        webmcp_entry()(t).level is Error <==> t.severity is Error,
        webmcp_entry()(t).level is Warning <==> t.severity is Warning,
{
}

/// The reason to fail says how many errors there are.
pub proof fn law_failure_counts_the_errors(entries: Seq<EntryView>, what: Seq<char>, errors: Seq<int>)
    requires
        are_places(errors, entries, |e: EntryView| e.level == Level::Error),
    ensures
        errors.len() == 0 ==> failure_of(entries, what) is None,
        errors.len() > 0 ==> failure_of(entries, what) == Some(
            decimal(errors.len()) + " error(es) de "@ + what + " encontrados"@,
        ),
{
    let p = |e: EntryView| e.level == Level::Error;
    assert(is_error() =~= p);
    law_count_is_that_of_the_places(entries, p);
    let at = choose|at: Seq<int>|
        #[trigger] are_places(at, entries, p) && at.len() == count_where(entries, p);
    lemma_same_places(at, errors, entries, p);
}

/// A preview is shown in three lines: title, description and image, or that
/// there is none.
pub proof fn law_preview_is_shown(preview: social::PreviewView)
    ensures
        preview_text(preview).len() == 3,
        preview.title matches Some(title) ==> preview_text(preview)[0] == "Titulo:      "@ + title,
        preview.description matches Some(description) ==> preview_text(preview)[1]
            == "Descripcion: "@ + description,
        preview.image matches Some(image) ==> preview_text(preview)[2] == "Imagen:      "@ + image,
        preview.title is None ==> preview_text(preview)[0] == "Titulo:      "@ + "(ninguno)"@,
        preview.description is None ==> preview_text(preview)[1] == "Descripcion: "@
            + "(ninguna)"@,
        preview.image is None ==> preview_text(preview)[2] == "Imagen:      "@ + "(ninguna)"@,
{
}

/// An argument that begins with `http://` or `https://` is an address; of the
/// others those that end in `.json` are snapshots, and the rest is HTML.
pub proof fn law_what_an_argument_means(target: Seq<char>)
    ensures
        ({
            let address = (target.len() >= 7 && target.take(7) == "http://"@) || (target.len() >= 8
                && target.take(8) == "https://"@);
            let snapshot = target.len() >= 5 && target.skip(target.len() - 5) == ".json"@;
            &&& source_of(target) is Url <==> address
            &&& source_of(target) is Snapshot <==> !address && snapshot
            &&& source_of(target) is Html <==> !address && !snapshot
        }),
{
    reveal_strlit("http://");
    reveal_strlit("https://");
    reveal_strlit(".json");
    if target.len() >= 7 {
        assert(target.take(7) =~= target.subrange(0, 7));
    }
    if target.len() >= 8 {
        assert(target.take(8) =~= target.subrange(0, 8));
    }
    if target.len() >= 5 {
        assert(target.skip(target.len() - 5) =~= target.subrange(
            target.len() - 5,
            target.len() as int,
        ));
    }
}

/// A file name asks for PNG or PDF by that extension, in any case, and for
/// SVG by every other and by none.
pub proof fn law_extension_names_the_format(extension: Seq<char>)
    ensures
        format_for(Some(extension)) is Png <==> ascii_lower(extension) == "png"@,
        format_for(Some(extension)) is Pdf <==> ascii_lower(extension) == "pdf"@,
        format_for(Some(extension)) is Svg <==> ascii_lower(extension) != "png"@ && ascii_lower(
            extension,
        ) != "pdf"@,
        format_for(None) is Svg,
{
    reveal_strlit("png");
    reveal_strlit("pdf");
    assert("png"@[1] == 'n' && "pdf"@[1] == 'd');
}

} // verus!
