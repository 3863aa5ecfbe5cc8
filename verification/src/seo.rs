//! A small on-page SEO linter: title, description, `robots`, a main heading,
//! and enough text. It does not repeat the heading checks of the
//! accessibility linter.

use crate::model::{lookup, meta_lookup, Element, ElementView, Page, PageView};
use crate::text::{
    ascii_lower, contains_text, decimal, decimal_text, has_part, or_empty, same_text, split_words,
    stands_at, text_or_empty, to_ascii_lower, trim, trimmed, words,
};
use crate::tree::{nodes_of, preorder};
use vstd::prelude::*;

verus! {

#[derive(Debug, Clone, Copy, PartialEq, Eq, Structural)]
pub enum Severity {
    Error,
    Warning,
    Info,
}

#[derive(Debug)]
pub struct SeoFinding {
    pub severity: Severity,
    pub message: String,
}

/// What a finding is, as a mathematical value.
#[verifier::ext_equal]
pub struct FindingView {
    pub severity: Severity,
    pub message: Seq<char>,
}

impl DeepView for SeoFinding {
    type V = FindingView;

    open spec fn deep_view(&self) -> FindingView {
        FindingView { severity: self.severity, message: self.message@ }
    }
}

pub const MIN_TITLE_CHARS: usize = 10;

pub const MAX_TITLE_CHARS: usize = 60;

pub const MIN_DESCRIPTION_CHARS: usize = 50;

pub const MAX_DESCRIPTION_CHARS: usize = 160;

pub const MIN_WORD_COUNT: usize = 200;

/// Whether the element or one below it is an `<h1>`.
pub open spec fn shows_h1(e: ElementView) -> bool {
    exists|k: int| 0 <= k < preorder(e).len() && (#[trigger] preorder(e)[k]).tag == "h1"@
}

/// Whether the element or one below it is an `<h1>`.
pub fn has_h1(element: &Element) -> (yes: bool)
    ensures
        yes == shows_h1(element.deep_view()),
{
    let nodes = nodes_of(element);
    for i in 0..nodes.len()
        invariant
            nodes.deep_view() == preorder(element.deep_view()),
            forall|k: int|
                0 <= k < i ==> (#[trigger] preorder(element.deep_view())[k]).tag != "h1"@,
    {
        assert(nodes.deep_view()[i as int] == nodes@[i as int].deep_view());
        if same_text(nodes[i].tag.as_str(), "h1") {
            return true;
        }
    }
    false
}

pub open spec fn title_text(page: PageView) -> Seq<char> {
    trimmed(text_or_empty(page.title))
}

pub open spec fn description_text(page: PageView) -> Seq<char> {
    trimmed(text_or_empty(lookup(page.meta, "description"@)))
}

pub open spec fn robots_text(page: PageView) -> Seq<char> {
    ascii_lower(text_or_empty(lookup(page.meta, "robots"@)))
}

pub open spec fn title_findings(title: Seq<char>) -> Seq<FindingView> {
    if title.len() == 0 {
        seq![
            FindingView {
                severity: Severity::Error,
                message: "falta <title>: los buscadores usan esto como el enlace principal en los resultados"@,
            },
        ]
    } else if title.len() < MIN_TITLE_CHARS || title.len() > MAX_TITLE_CHARS {
        seq![
            FindingView {
                severity: Severity::Warning,
                message: "<title> tiene "@ + decimal(title.len())
                    + " caracteres (recomendado 10-60): "@ + (if title.len() < MIN_TITLE_CHARS {
                    "es muy corto/vago"@
                } else {
                    "se va a truncar en los resultados de busqueda"@
                }),
            },
        ]
    } else {
        Seq::empty()
    }
}

pub open spec fn robots_findings(robots: Seq<char>) -> Seq<FindingView> {
    if has_part(robots, "noindex"@) {
        seq![
            FindingView {
                severity: Severity::Error,
                message: "meta robots=\""@ + robots
                    + "\": esta pagina esta explicitamente excluida de la indexacion"@,
            },
        ]
    } else {
        Seq::empty()
    }
}

pub open spec fn description_findings(description: Seq<char>) -> Seq<FindingView> {
    if description.len() == 0 {
        seq![
            FindingView {
                severity: Severity::Warning,
                message: "falta <meta name=\"description\">: el buscador va a generar un fragmento automatico, sin control sobre el texto"@,
            },
        ]
    } else if description.len() < MIN_DESCRIPTION_CHARS || description.len()
        > MAX_DESCRIPTION_CHARS {
        seq![
            FindingView {
                severity: Severity::Warning,
                message: "meta description tiene "@ + decimal(description.len())
                    + " caracteres (recomendado 50-160): "@ + (if description.len()
                    < MIN_DESCRIPTION_CHARS {
                    "es muy corta"@
                } else {
                    "se va a truncar en los resultados de busqueda"@
                }),
            },
        ]
    } else {
        Seq::empty()
    }
}

pub open spec fn heading_findings(root: ElementView) -> Seq<FindingView> {
    if shows_h1(root) {
        Seq::empty()
    } else {
        seq![
            FindingView {
                severity: Severity::Warning,
                message: "no hay ningun <h1> en la pagina: es la senal mas clara del tema principal para el buscador"@,
            },
        ]
    }
}

pub open spec fn length_findings(text: Seq<char>) -> Seq<FindingView> {
    if words(text).len() < MIN_WORD_COUNT {
        seq![
            FindingView {
                severity: Severity::Info,
                message: "la pagina tiene "@ + decimal(words(text).len())
                    + " palabras (recomendado 200+): contenido muy corto puede rankear peor"@,
            },
        ]
    } else {
        Seq::empty()
    }
}

/// What the linter says of a page.
pub open spec fn findings_of(page: PageView) -> Seq<FindingView> {
    title_findings(title_text(page)) + robots_findings(robots_text(page)) + description_findings(
        description_text(page),
    ) + heading_findings(page.root) + length_findings(page.text)
}

fn or_nothing<'a>(text: Option<&'a str>) -> (s: &'a str)
    ensures
        s@ == text_or_empty(text.deep_view()),
{
    match text {
        Some(text) => text,
        None => {
            proof {
                reveal_strlit("");
            }
            assert(""@ =~= Seq::empty());
            ""
        },
    }
}

/// Checks a page against a handful of practical on-page SEO rules.
pub fn lint(page: &Page) -> (findings: Vec<SeoFinding>)
    ensures
        findings.deep_view() == findings_of(page.deep_view()),
{
    let ghost p = page.deep_view();
    let mut findings: Vec<SeoFinding> = Vec::new();
    let title = trim(or_empty(&page.title));
    let description = trim(or_nothing(meta_lookup(&page.meta, "description")));
    let robots = to_ascii_lower(or_nothing(meta_lookup(&page.meta, "robots")));

    let title_len = title.as_str().unicode_len();
    if title_len == 0 {
        findings.push(
            SeoFinding {
                severity: Severity::Error,
                message: "falta <title>: los buscadores usan esto como el enlace principal en los resultados".to_owned(),
            },
        );
    } else if title_len < MIN_TITLE_CHARS || title_len > MAX_TITLE_CHARS {
        let message = "<title> tiene ".to_owned().concat(
            decimal_text(title_len as u128).as_str(),
        ).concat(" caracteres (recomendado 10-60): ").concat(
            if title_len < MIN_TITLE_CHARS {
                "es muy corto/vago"
            } else {
                "se va a truncar en los resultados de busqueda"
            },
        );
        findings.push(SeoFinding { severity: Severity::Warning, message });
    }
    assert(findings.deep_view() =~= title_findings(title_text(p)));

    let ghost held = findings.deep_view();
    if contains_text(robots.as_str(), "noindex") {
        let message = "meta robots=\"".to_owned().concat(robots.as_str()).concat(
            "\": esta pagina esta explicitamente excluida de la indexacion",
        );
        findings.push(SeoFinding { severity: Severity::Error, message });
    }
    assert(findings.deep_view() =~= held + robots_findings(robots_text(p)));

    let ghost held = findings.deep_view();
    let description_len = description.as_str().unicode_len();
    if description_len == 0 {
        findings.push(
            SeoFinding {
                severity: Severity::Warning,
                message: "falta <meta name=\"description\">: el buscador va a generar un fragmento automatico, sin control sobre el texto".to_owned(),
            },
        );
    } else if description_len < MIN_DESCRIPTION_CHARS || description_len > MAX_DESCRIPTION_CHARS {
        let message = "meta description tiene ".to_owned().concat(
            decimal_text(description_len as u128).as_str(),
        ).concat(" caracteres (recomendado 50-160): ").concat(
            if description_len < MIN_DESCRIPTION_CHARS {
                "es muy corta"
            } else {
                "se va a truncar en los resultados de busqueda"
            },
        );
        findings.push(SeoFinding { severity: Severity::Warning, message });
    }
    assert(findings.deep_view() =~= held + description_findings(description_text(p)));

    let ghost held = findings.deep_view();
    if !has_h1(&page.root) {
        findings.push(
            SeoFinding {
                severity: Severity::Warning,
                message: "no hay ningun <h1> en la pagina: es la senal mas clara del tema principal para el buscador".to_owned(),
            },
        );
    }
    assert(findings.deep_view() =~= held + heading_findings(p.root));

    let ghost held = findings.deep_view();
    let word_count = split_words(page.text.as_str()).len();
    if word_count < MIN_WORD_COUNT {
        let message = "la pagina tiene ".to_owned().concat(
            decimal_text(word_count as u128).as_str(),
        ).concat(" palabras (recomendado 200+): contenido muy corto puede rankear peor");
        findings.push(SeoFinding { severity: Severity::Info, message });
    }
    assert(findings.deep_view() =~= held + length_findings(p.text));
    findings
}

/// A page fails the build if and only if it has no title or asks not to be
/// indexed.
pub proof fn law_errors_are_no_title_or_noindex(page: PageView)
    ensures
        (exists|k: int|
            0 <= k < findings_of(page).len() && (#[trigger] findings_of(page)[k]).severity
                == Severity::Error) <==> (title_text(page).len() == 0 || has_part(
            robots_text(page),
            "noindex"@,
        )),
{
    let first = title_findings(title_text(page));
    let second = robots_findings(robots_text(page));
    let all = findings_of(page);
    if title_text(page).len() == 0 {
        assert(all[0] == first[0]);
    }
    if has_part(robots_text(page), "noindex"@) {
        assert(all[first.len() as int] == second[0]);
    }
}

/// Whether `noindex` stands anywhere in a text.
pub open spec fn says_noindex(text: Seq<char>) -> bool {
    exists|k: int| 0 <= k <= text.len() - 7 && #[trigger] text.subrange(k, k + 7) == "noindex"@
}

/// What the linter finds goes by the page: a title that has not 10 to 60
/// characters, `noindex` in `robots`, a description that has not 50 to 160
/// characters, no `<h1>`, and fewer than 200 words. Each is one finding and
/// nothing else is. Title and description count without the white space
/// around them; `robots` counts in any case.
pub proof fn law_findings_go_by_the_page(page: PageView)
    ensures
        ({
            let found = findings_of(page);
            let title = trimmed(
                match page.title {
                    Some(title) => title,
                    None => Seq::empty(),
                },
            );
            let robots = ascii_lower(
                match lookup(page.meta, "robots"@) {
                    Some(robots) => robots,
                    None => Seq::empty(),
                },
            );
            let description = trimmed(
                match lookup(page.meta, "description"@) {
                    Some(description) => description,
                    None => Seq::empty(),
                },
            );
            let a: int = if 10 <= title.len() <= 60 {
                0
            } else {
                1
            };
            let b: int = a + if says_noindex(robots) {
                1int
            } else {
                0
            };
            let c: int = b + if 50 <= description.len() <= 160 {
                0int
            } else {
                1
            };
            let d: int = c + if exists|k: int|
                0 <= k < preorder(page.root).len() && (#[trigger] preorder(page.root)[k]).tag
                    == "h1"@ {
                0int
            } else {
                1
            };
            let e: int = d + if words(page.text).len() < 200 {
                1int
            } else {
                0
            };
            &&& found.len() == e
            &&& a > 0 ==> found[0].severity == if title.len() == 0 {
                Severity::Error
            } else {
                Severity::Warning
            }
            &&& a > 0 && title.len() > 0 ==> found[0].message == "<title> tiene "@ + decimal(
                title.len(),
            ) + " caracteres (recomendado 10-60): "@ + (if title.len() < 10 {
                "es muy corto/vago"@
            } else {
                "se va a truncar en los resultados de busqueda"@
            })
            &&& b > a ==> found[a] == (FindingView {
                severity: Severity::Error,
                message: "meta robots=\""@ + robots
                    + "\": esta pagina esta explicitamente excluida de la indexacion"@,
            })
            &&& c > b ==> found[b].severity == Severity::Warning
            &&& c > b && description.len() > 0 ==> found[b].message == "meta description tiene "@
                + decimal(description.len()) + " caracteres (recomendado 50-160): "@ + (
            if description.len() < 50 {
                "es muy corta"@
            } else {
                "se va a truncar en los resultados de busqueda"@
            })
            &&& d > c ==> found[c].severity == Severity::Warning
            &&& e > d ==> found[d] == (FindingView {
                severity: Severity::Info,
                message: "la pagina tiene "@ + decimal(words(page.text).len())
                    + " palabras (recomendado 200+): contenido muy corto puede rankear peor"@,
            })
        }),
{
    reveal_strlit("noindex");
    let robots = robots_text(page);
    let part = "noindex"@;
    if has_part(robots, part) {
        let at = choose|at: int| stands_at(robots, part, at);
        assert(robots.subrange(at, at + 7) == part);
    }
    if says_noindex(robots) {
        let k = choose|k: int|
            0 <= k <= robots.len() - 7 && #[trigger] robots.subrange(k, k + 7) == "noindex"@;
        assert(stands_at(robots, part, k));
    }
}

} // verus!
