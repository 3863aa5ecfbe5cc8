//! What a link-unfurling bot would show of a page: title, description and
//! image, found the way those bots find them (Open Graph, then Twitter Card,
//! then what the page has otherwise), and the common ways in which that
//! preview ends up degraded.

use crate::model::{copy_text, lookup, meta_lookup, Page, PageView};
use crate::text::{
    all_white_space, decimal, decimal_text, first_chars, is_blank, lemma_no_words, stands_at,
    starts_with, take_chars, words,
};
use vstd::prelude::*;

verus! {

#[derive(Debug, Clone, Copy, PartialEq, Eq, Structural)]
pub enum Severity {
    Error,
    Warning,
    Info,
}

#[derive(Debug)]
pub struct SocialFinding {
    pub severity: Severity,
    pub message: String,
}

#[derive(Debug)]
pub struct SocialPreview {
    pub title: Option<String>,
    pub description: Option<String>,
    pub image: Option<String>,
}

/// What a finding is, as a mathematical value.
#[verifier::ext_equal]
pub struct FindingView {
    pub severity: Severity,
    pub message: Seq<char>,
}

/// What a preview is, as a mathematical value.
#[verifier::ext_equal]
pub struct PreviewView {
    pub title: Option<Seq<char>>,
    pub description: Option<Seq<char>>,
    pub image: Option<Seq<char>>,
}

impl DeepView for SocialFinding {
    type V = FindingView;

    open spec fn deep_view(&self) -> FindingView {
        FindingView { severity: self.severity, message: self.message@ }
    }
}

impl DeepView for SocialPreview {
    type V = PreviewView;

    open spec fn deep_view(&self) -> PreviewView {
        PreviewView {
            title: self.title.deep_view(),
            description: self.description.deep_view(),
            image: self.image.deep_view(),
        }
    }
}

/// The first of the two that is there.
pub open spec fn either(first: Option<Seq<char>>, second: Option<Seq<char>>) -> Option<Seq<char>> {
    if first is Some {
        first
    } else {
        second
    }
}

/// The beginning of a text that holds more than white space.
pub open spec fn excerpt(text: Seq<char>, max_chars: int) -> Option<Seq<char>> {
    if all_white_space(text) {
        None
    } else {
        Some(first_chars(text, max_chars))
    }
}

/// The preview of a page.
pub open spec fn preview_of(page: PageView) -> PreviewView {
    let meta = page.meta;
    PreviewView {
        title: either(
            lookup(meta, "og:title"@),
            either(lookup(meta, "twitter:title"@), page.title),
        ),
        description: either(
            lookup(meta, "og:description"@),
            either(
                lookup(meta, "twitter:description"@),
                either(lookup(meta, "description"@), excerpt(page.text, 200)),
            ),
        ),
        image: either(lookup(meta, "og:image"@), lookup(meta, "twitter:image"@)),
    }
}

pub open spec fn is_absolute(image: Seq<char>) -> bool {
    stands_at(image, "http://"@, 0) || stands_at(image, "https://"@, 0)
}

pub open spec fn title_findings(preview: PreviewView) -> Seq<FindingView> {
    if preview.title is None {
        seq![
            FindingView {
                severity: Severity::Error,
                message: "sin titulo resoluble (ni og:title, ni twitter:title, ni <title>): la mayoria de los bots mostrara solo la URL desnuda"@,
            },
        ]
    } else {
        Seq::empty()
    }
}

pub open spec fn image_findings(preview: PreviewView) -> Seq<FindingView> {
    if preview.image is None {
        seq![
            FindingView {
                severity: Severity::Warning,
                message: "sin imagen (ni og:image ni twitter:image): el preview se vera degradado en la mayoria de las plataformas"@,
            },
        ]
    } else {
        Seq::empty()
    }
}

pub open spec fn description_findings(preview: PreviewView) -> Seq<FindingView> {
    match preview.description {
        None => seq![
            FindingView {
                severity: Severity::Warning,
                message: "sin descripcion resoluble (ni meta description/OG/Twitter, ni texto en la pagina)"@,
            },
        ],
        Some(description) => if description.len() > 200 {
            seq![
                FindingView {
                    severity: Severity::Info,
                    message: "la descripcion tiene "@ + decimal(description.len())
                        + " caracteres: la mayoria de las plataformas la recorta alrededor de 200"@,
                },
            ]
        } else {
            Seq::empty()
        },
    }
}

pub open spec fn address_findings(preview: PreviewView) -> Seq<FindingView> {
    match preview.image {
        Some(image) if !is_absolute(image) => seq![
            FindingView {
                severity: Severity::Info,
                message: "la imagen resuelta ('"@ + image
                    + "') no es una URL absoluta: muchos crawlers no la resuelven contra la pagina y la ignoran"@,
            },
        ],
        _ => Seq::empty(),
    }
}

/// What the linter says of a preview.
pub open spec fn findings_of(preview: PreviewView) -> Seq<FindingView> {
    title_findings(preview) + image_findings(preview) + description_findings(preview)
        + address_findings(preview)
}

/// The beginning of a text that holds more than white space.
pub fn first_words(text: &str, max_chars: usize) -> (start: Option<String>)
    ensures
        start.deep_view() == excerpt(text@, max_chars as int),
{
    if is_blank(text) {
        return None;
    }
    Some(take_chars(text, max_chars))
}

fn meta_text(page: &Page, key: &str) -> (found: Option<String>)
    ensures
        found.deep_view() == lookup(page.deep_view().meta, key@),
{
    match meta_lookup(&page.meta, key) {
        Some(text) => Some(text.to_owned()),
        None => None,
    }
}

/// The preview of a page, in the order of preference that real crawlers
/// have: Open Graph, then Twitter Card, then what the page has otherwise.
pub fn resolve_preview(page: &Page) -> (preview: SocialPreview)
    ensures
        preview.deep_view() == preview_of(page.deep_view()),
{
    let mut title = meta_text(page, "og:title");
    if title.is_none() {
        title = meta_text(page, "twitter:title");
    }
    if title.is_none() {
        title = copy_text(&page.title);
    }
    let mut description = meta_text(page, "og:description");
    if description.is_none() {
        description = meta_text(page, "twitter:description");
    }
    if description.is_none() {
        description = meta_text(page, "description");
    }
    if description.is_none() {
        description = first_words(page.text.as_str(), 200);
    }
    let mut image = meta_text(page, "og:image");
    if image.is_none() {
        image = meta_text(page, "twitter:image");
    }
    SocialPreview { title, description, image }
}

/// The preview of a page, and what is wrong with it.
pub fn lint(page: &Page) -> (linted: (SocialPreview, Vec<SocialFinding>))
    ensures
        linted.0.deep_view() == preview_of(page.deep_view()),
        linted.1.deep_view() == findings_of(preview_of(page.deep_view())),
{
    let preview = resolve_preview(page);
    let ghost p = preview.deep_view();
    let mut findings: Vec<SocialFinding> = Vec::new();

    if preview.title.is_none() {
        findings.push(
            SocialFinding {
                severity: Severity::Error,
                message: "sin titulo resoluble (ni og:title, ni twitter:title, ni <title>): la mayoria de los bots mostrara solo la URL desnuda".to_owned(),
            },
        );
    }
    assert(findings.deep_view() =~= title_findings(p));

    let ghost held = findings.deep_view();
    if preview.image.is_none() {
        findings.push(
            SocialFinding {
                severity: Severity::Warning,
                message: "sin imagen (ni og:image ni twitter:image): el preview se vera degradado en la mayoria de las plataformas".to_owned(),
            },
        );
    }
    assert(findings.deep_view() =~= held + image_findings(p));

    let ghost held = findings.deep_view();
    match &preview.description {
        None => {
            findings.push(
                SocialFinding {
                    severity: Severity::Warning,
                    message: "sin descripcion resoluble (ni meta description/OG/Twitter, ni texto en la pagina)".to_owned(),
                },
            );
        },
        Some(description) => {
            let length = description.as_str().unicode_len();
            if length > 200 {
                let message = "la descripcion tiene ".to_owned().concat(
                    decimal_text(length as u128).as_str(),
                ).concat(
                    " caracteres: la mayoria de las plataformas la recorta alrededor de 200",
                );
                findings.push(SocialFinding { severity: Severity::Info, message });
            }
        },
    }
    assert(findings.deep_view() =~= held + description_findings(p));

    let ghost held = findings.deep_view();
    if let Some(image) = &preview.image {
        if !starts_with(image.as_str(), "http://") && !starts_with(image.as_str(), "https://") {
            let message = "la imagen resuelta ('".to_owned().concat(image.as_str()).concat(
                "') no es una URL absoluta: muchos crawlers no la resuelven contra la pagina y la ignoran",
            );
            findings.push(SocialFinding { severity: Severity::Info, message });
        }
    }
    assert(findings.deep_view() =~= held + address_findings(p));
    (preview, findings)
}

/// Open Graph comes first: where a page has its values, nothing else of the
/// page matters to the preview.
pub proof fn law_open_graph_comes_first(page: PageView)
    ensures
        lookup(page.meta, "og:title"@) is Some ==> preview_of(page).title == lookup(
            page.meta,
            "og:title"@,
        ),
        lookup(page.meta, "og:description"@) is Some ==> preview_of(page).description == lookup(
            page.meta,
            "og:description"@,
        ),
        lookup(page.meta, "og:image"@) is Some ==> preview_of(page).image == lookup(
            page.meta,
            "og:image"@,
        ),
{
}

/// A page fails the build if and only if no title can be found in any way.
pub proof fn law_errors_are_missing_titles(page: PageView)
    ensures
        (exists|k: int|
            0 <= k < findings_of(preview_of(page)).len() && (#[trigger] findings_of(
                preview_of(page),
            )[k]).severity == Severity::Error) <==> (page.title is None && lookup(
            page.meta,
            "og:title"@,
        ) is None && lookup(page.meta, "twitter:title"@) is None),
{
    let preview = preview_of(page);
    if preview.title is None {
        assert(findings_of(preview)[0] == title_findings(preview)[0]);
    }
}

/// A preview has the first that is there: for the title Open Graph, then
/// Twitter Card, then the page's own title; for the description the same
/// two, then the page's own description, then the first 200 characters of
/// its text, if that has a word; for the image the two alone.
pub proof fn law_preview_takes_the_first_there(page: PageView)
    ensures
        ({
            let preview = preview_of(page);
            let meta = |key: Seq<char>| lookup(page.meta, key);
            &&& preview.title == match (meta("og:title"@), meta("twitter:title"@)) {
                (Some(title), _) => Some(title),
                (None, Some(title)) => Some(title),
                (None, None) => page.title,
            }
            &&& preview.image == match (meta("og:image"@), meta("twitter:image"@)) {
                (Some(image), _) => Some(image),
                (None, other) => other,
            }
            &&& meta("og:description"@) is Some ==> preview.description == meta("og:description"@)
            &&& meta("og:description"@) is None && meta("twitter:description"@) is Some
                ==> preview.description == meta("twitter:description"@)
            &&& meta("og:description"@) is None && meta("twitter:description"@) is None && meta(
                "description"@,
            ) is Some ==> preview.description == meta("description"@)
            &&& meta("og:description"@) is None && meta("twitter:description"@) is None && meta(
                "description"@,
            ) is None ==> {
                &&& words(page.text).len() == 0 ==> preview.description is None
                &&& words(page.text).len() > 0 && page.text.len() <= 200 ==> preview.description
                    == Some(page.text)
                &&& words(page.text).len() > 0 && page.text.len() > 200 ==> preview.description
                    == Some(page.text.take(200))
            }
        }),
{
    lemma_no_words(page.text);
}

/// The beginning of a text is its first characters, as many as asked for or
/// as it has; of a text without a word there is none.
pub proof fn law_excerpt_is_the_beginning(text: Seq<char>, max_chars: int)
    requires
        0 <= max_chars,
    ensures
        words(text).len() == 0 <==> excerpt(text, max_chars) is None,
        excerpt(text, max_chars) matches Some(start) ==> {
            &&& start.len() == if text.len() < max_chars {
                text.len() as int
            } else {
                max_chars
            }
            &&& start == text.take(start.len() as int)
        },
{
    lemma_no_words(text);
    if text.len() <= max_chars {
        assert(text.take(text.len() as int) =~= text);
    }
}

/// What the linter finds goes by the preview: no title, no image, no
/// description or one of more than 200 characters, and an image without a
/// whole address. Each is one finding and nothing else is.
pub proof fn law_findings_go_by_the_preview(preview: PreviewView)
    ensures
        ({
            let found = findings_of(preview);
            let a: int = if preview.title is None {
                1
            } else {
                0
            };
            let b: int = a + if preview.image is None {
                1int
            } else {
                0
            };
            let c: int = b + if preview.description is None || preview.description->0.len() > 200 {
                1int
            } else {
                0
            };
            let whole = |image: Seq<char>|
                {
                    ||| image.len() >= 7 && image.take(7) == "http://"@
                    ||| image.len() >= 8 && image.take(8) == "https://"@
                };
            let d: int = c + if preview.image is Some && !whole(preview.image->0) {
                1int
            } else {
                0
            };
            &&& found.len() == d
            &&& a > 0 ==> found[0].severity == Severity::Error
            &&& b > a ==> found[a].severity == Severity::Warning
            &&& c > b && preview.description is None ==> found[b].severity == Severity::Warning
            &&& preview.description is Some && preview.description->0.len() > 200 ==> found[b] == (
            FindingView {
                severity: Severity::Info,
                message: "la descripcion tiene "@ + decimal(preview.description->0.len())
                    + " caracteres: la mayoria de las plataformas la recorta alrededor de 200"@,
            })
            &&& d > c ==> found[c] == (FindingView {
                severity: Severity::Info,
                message: "la imagen resuelta ('"@ + preview.image->0
                    + "') no es una URL absoluta: muchos crawlers no la resuelven contra la pagina y la ignoran"@,
            })
        }),
{
    reveal_strlit("http://");
    reveal_strlit("https://");
    if let Some(image) = preview.image {
        if image.len() >= 7 {
            assert(image.take(7) =~= image.subrange(0, 7));
        }
        if image.len() >= 8 {
            assert(image.take(8) =~= image.subrange(0, 8));
        }
    }
}

} // verus!
