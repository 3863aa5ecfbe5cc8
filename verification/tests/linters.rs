use kite_lite_core::a11y::heading_level;
use kite_lite_core::report::{
    a11y_entries, failure, format_of_extension, page_source, preview_lines, report_lines,
    seo_entries, social_entries, webmcp_entries, PageSource,
};
use kite_lite_core::http::OutputFormat;
use kite_lite_core::seo::has_h1;
use kite_lite_core::social::{first_words, resolve_preview};
use kite_lite_core::webmcp::add_finding;
use kite_lite_core::{
    lint_a11y, lint_seo, lint_social, lint_webmcp, parse_html, A11yFinding, A11ySeverity,
    SeoFinding, SeoSeverity, SocialFinding, SocialSeverity, WebMcpLintFinding, WebMcpLintSeverity,
};

fn a11y_messages(findings: &[A11yFinding]) -> Vec<&str> {
    findings.iter().map(|f| f.message.as_str()).collect()
}

#[test]
fn a11y_a_well_formed_page_produces_no_findings() {
    let page = parse_html(
        r#"<html lang="es"><body><h1>Titulo</h1><h2>Subtitulo</h2>
             <img src="x.png" alt="una foto">
             <a href="/x">Ir a x</a>
           </body></html>"#,
    );
    assert!(lint_a11y(&page).is_empty());
}

#[test]
fn image_without_alt_is_flagged() {
    let page = parse_html(r#"<img src="x.png">"#);
    assert!(a11y_messages(&lint_a11y(&page)).iter().any(|m| m.contains("sin atributo 'alt'")));
}

#[test]
fn image_with_empty_alt_is_not_flagged() {
    let page = parse_html(r#"<html lang="es"><img src="x.png" alt=""></html>"#);
    assert!(lint_a11y(&page).is_empty());
}

#[test]
fn heading_level_skip_is_flagged() {
    let page = parse_html(r#"<h1>Titulo</h1><h3>Subtitulo</h3>"#);
    assert!(a11y_messages(&lint_a11y(&page)).iter().any(|m| m.contains("salto de nivel")));
}

#[test]
fn multiple_h1_is_flagged() {
    let page = parse_html(r#"<h1>Uno</h1><h1>Dos</h1>"#);
    assert!(a11y_messages(&lint_a11y(&page)).iter().any(|m| m.contains("2 elementos <h1>")));
}

#[test]
fn empty_link_without_image_is_flagged() {
    let page = parse_html(r#"<a href="/x"></a>"#);
    assert!(a11y_messages(&lint_a11y(&page)).iter().any(|m| m.contains("sin texto ni imagen")));
}

#[test]
fn link_with_described_image_is_not_flagged() {
    let page = parse_html(r#"<html lang="es"><a href="/x"><img src="icon.png" alt="ir a x"></a></html>"#);
    assert!(lint_a11y(&page).is_empty());
}

#[test]
fn missing_lang_is_flagged() {
    let page = parse_html(r#"<html><body><p>hola</p></body></html>"#);
    assert!(a11y_messages(&lint_a11y(&page)).iter().any(|m| m.contains("sin atributo 'lang'")));
}

#[test]
fn a11y_messages_are_exact_and_in_order() {
    let page = parse_html(
        r#"<html lang=" "><body><h1>Uno</h1><h1>Dos</h1><h3>Salta un nivel</h3><img><a href="/x"></a></body></html>"#,
    );
    let findings = lint_a11y(&page);
    assert_eq!(
        a11y_messages(&findings),
        vec![
            "<img> sin atributo 'alt': un lector de pantalla no puede describirla (usa alt=\"\" si es decorativa)",
            "<a href=\"/x\"> sin texto ni imagen con 'alt': un lector de pantalla no anuncia nada util",
            "<html> sin atributo 'lang': un lector de pantalla no sabe en que idioma anunciar la pagina",
            "hay 2 elementos <h1> en la pagina: deberia haber un unico encabezado principal",
            "salto de nivel de encabezado: <h1> seguido de <h3> (deberia ser <h2>) - texto: 'Salta un nivel'",
        ]
    );
    assert!(findings.iter().all(|f| f.severity == A11ySeverity::Warning));
}

#[test]
fn heading_text_is_cut_in_the_message() {
    let page = parse_html(&format!("<html lang=\"es\"><h2>a</h2><h4>{}</h4></html>", "x".repeat(50)));
    let findings = lint_a11y(&page);
    assert_eq!(findings.len(), 1);
    assert!(findings[0].message.ends_with(&format!("texto: '{}'", "x".repeat(40))));
}

#[test]
fn heading_levels_may_rise_freely() {
    let page = parse_html("<html lang=\"es\"><h2>a</h2><h3>b</h3><h1>c</h1><h2>d</h2></html>");
    assert!(lint_a11y(&page).is_empty());
    assert_eq!(heading_level("h1"), 1);
    assert_eq!(heading_level("h6"), 6);
}

fn seo_messages(findings: &[SeoFinding]) -> Vec<&str> {
    findings.iter().map(|f| f.message.as_str()).collect()
}

fn long_text(words: usize) -> String {
    "palabra ".repeat(words)
}

#[test]
fn seo_a_well_formed_page_produces_no_findings() {
    let html = format!(
        r#"<html><head><title>Un titulo de longitud razonable</title>
             <meta name="description" content="Una descripcion de longitud razonable que describe bien el contenido de la pagina para los buscadores.">
           </head><body><h1>Titulo</h1><p>{}</p></body></html>"#,
        long_text(250)
    );
    let page = parse_html(&html);
    assert!(lint_seo(&page).is_empty(), "{:?}", lint_seo(&page));
}

#[test]
fn missing_title_is_an_error() {
    let page = parse_html("<body><h1>Hola</h1></body>");
    assert!(seo_messages(&lint_seo(&page)).iter().any(|m| m.contains("falta <title>")));
}

#[test]
fn noindex_is_an_error() {
    let page = parse_html(r#"<html><head><title>Titulo largo y razonable aca</title><meta name="robots" content="noindex, nofollow"></head></html>"#);
    let findings = lint_seo(&page);
    assert!(findings.iter().any(|f| f.severity == SeoSeverity::Error && f.message.contains("noindex")));
}

#[test]
fn short_title_is_a_warning() {
    let page = parse_html("<title>Hola</title>");
    assert!(seo_messages(&lint_seo(&page)).iter().any(|m| m.contains("muy corto")));
}

#[test]
fn missing_description_is_a_warning() {
    let page = parse_html("<title>Un titulo de longitud razonable aca</title>");
    assert!(seo_messages(&lint_seo(&page)).iter().any(|m| m.contains("falta <meta name=\"description\">")));
}

#[test]
fn missing_h1_is_a_warning() {
    let page = parse_html(
        r#"<html><head><title>Un titulo de longitud razonable</title>
             <meta name="description" content="Una descripcion de longitud razonable que describe bien el contenido de la pagina."></head>
           <body><h2>Subtitulo</h2></body></html>"#,
    );
    assert!(seo_messages(&lint_seo(&page)).iter().any(|m| m.contains("no hay ningun <h1>")));
}

#[test]
fn thin_content_is_an_info_note() {
    let page = parse_html(
        r#"<html><head><title>Un titulo de longitud razonable</title>
             <meta name="description" content="Una descripcion de longitud razonable que describe bien el contenido de la pagina."></head>
           <body><h1>Titulo</h1><p>Poco texto aca.</p></body></html>"#,
    );
    assert!(seo_messages(&lint_seo(&page)).iter().any(|m| m.contains("palabras")));
}

fn seo_page(title: usize, description: usize, words: usize) -> Vec<String> {
    let page = parse_html(&format!(
        r#"<title>{}</title><meta name="description" content="{}"><h1>x</h1><p>{}</p>"#,
        "t".repeat(title),
        "d".repeat(description),
        long_text(words)
    ));
    lint_seo(&page).into_iter().map(|f| f.message).collect()
}

#[test]
fn seo_bounds_are_exact() {
    assert!(seo_page(10, 50, 250).is_empty());
    assert!(seo_page(60, 160, 250).is_empty());
    assert_eq!(
        seo_page(9, 50, 250),
        vec!["<title> tiene 9 caracteres (recomendado 10-60): es muy corto/vago"]
    );
    assert_eq!(
        seo_page(61, 50, 250),
        vec!["<title> tiene 61 caracteres (recomendado 10-60): se va a truncar en los resultados de busqueda"]
    );
    assert_eq!(
        seo_page(10, 49, 250),
        vec!["meta description tiene 49 caracteres (recomendado 50-160): es muy corta"]
    );
    assert_eq!(
        seo_page(10, 161, 250),
        vec!["meta description tiene 161 caracteres (recomendado 50-160): se va a truncar en los resultados de busqueda"]
    );
    assert_eq!(
        // The heading and the first word stand together: no space parts them.
        seo_page(10, 50, 3),
        vec!["la pagina tiene 3 palabras (recomendado 200+): contenido muy corto puede rankear peor"]
    );
}

#[test]
fn robots_is_matched_without_case() {
    let page = parse_html(r#"<meta name="robots" content="NoIndex">"#);
    let findings = lint_seo(&page);
    assert!(findings.iter().any(|f| f.message
        == "meta robots=\"noindex\": esta pagina esta explicitamente excluida de la indexacion"));
    assert!(!has_h1(&page.root));
    assert!(has_h1(&parse_html("<div><h1>x</h1></div>").root));
}

fn social_messages(findings: &[SocialFinding]) -> Vec<&str> {
    findings.iter().map(|f| f.message.as_str()).collect()
}

#[test]
fn prefers_open_graph_over_title_and_text() {
    let page = parse_html(
        r#"<html><head><title>Fallback title</title>
             <meta property="og:title" content="OG Title">
             <meta property="og:description" content="OG description">
             <meta property="og:image" content="https://example.com/img.png">
           </head><body>Some body text</body></html>"#,
    );
    let (preview, findings) = lint_social(&page);
    assert_eq!(preview.title.as_deref(), Some("OG Title"));
    assert_eq!(preview.description.as_deref(), Some("OG description"));
    assert_eq!(preview.image.as_deref(), Some("https://example.com/img.png"));
    assert!(findings.is_empty(), "{findings:?}");
}

#[test]
fn falls_back_to_twitter_card_then_plain_meta() {
    let page = parse_html(
        r#"<html><head>
             <meta name="twitter:title" content="Twitter Title">
             <meta name="description" content="Plain description">
           </head><body></body></html>"#,
    );
    let (preview, _) = lint_social(&page);
    assert_eq!(preview.title.as_deref(), Some("Twitter Title"));
    assert_eq!(preview.description.as_deref(), Some("Plain description"));
}

#[test]
fn falls_back_to_html_title_and_body_text() {
    let page = parse_html(r#"<title>Just a title</title><body>Just some body text here.</body>"#);
    let (preview, findings) = lint_social(&page);
    assert_eq!(preview.title.as_deref(), Some("Just a title"));
    assert_eq!(preview.description.as_deref(), Some("Just some body text here."));
    assert!(social_messages(&findings).iter().any(|m| m.contains("sin imagen")));
}

#[test]
fn missing_everything_is_an_error_for_title() {
    let page = parse_html("<body></body>");
    let (preview, findings) = lint_social(&page);
    assert!(preview.title.is_none());
    assert!(findings.iter().any(|f| f.severity == SocialSeverity::Error && f.message.contains("sin titulo")));
}

#[test]
fn long_description_is_an_info_note() {
    let long = "a".repeat(250);
    let page = parse_html(&format!(r#"<meta name="description" content="{long}">"#));
    let (_, findings) = lint_social(&page);
    assert!(social_messages(&findings).iter().any(|m| m.contains("200")));
}

#[test]
fn relative_image_url_is_an_info_note() {
    let page = parse_html(r#"<meta property="og:image" content="/img.png">"#);
    let (_, findings) = lint_social(&page);
    assert!(social_messages(&findings).iter().any(|m| m.contains("no es una URL absoluta")));
}

#[test]
fn social_messages_are_exact() {
    let (preview, findings) = lint_social(&parse_html(""));
    assert!(preview.description.is_none());
    assert_eq!(
        social_messages(&findings),
        vec![
            "sin titulo resoluble (ni og:title, ni twitter:title, ni <title>): la mayoria de los bots mostrara solo la URL desnuda",
            "sin imagen (ni og:image ni twitter:image): el preview se vera degradado en la mayoria de las plataformas",
            "sin descripcion resoluble (ni meta description/OG/Twitter, ni texto en la pagina)",
        ]
    );
    assert_eq!(first_words("  ", 5), None);
    assert_eq!(first_words("áéíóú", 3).as_deref(), Some("áéí"));
    let page = parse_html(&format!("<p>{}</p>", "x".repeat(300)));
    assert_eq!(resolve_preview(&page).description, Some("x".repeat(200)));
}

fn webmcp_messages(findings: &[WebMcpLintFinding], severity: WebMcpLintSeverity) -> Vec<&str> {
    findings
        .iter()
        .filter(|f| f.severity == severity)
        .map(|f| f.message.as_str())
        .collect()
}

#[test]
fn a_well_formed_tool_produces_no_findings() {
    let page = parse_html(
        r#"<form toolname="search-cars" tooldescription="Search for a car" action="/search">
             <input type="text" name="make" toolparamdescription="The make">
           </form>"#,
    );
    assert!(lint_webmcp(&page).is_empty());
}

#[test]
fn missing_tooldescription_is_an_error() {
    let page = parse_html(r#"<form toolname="go" action="/x"><input name="q"></form>"#);
    let findings = lint_webmcp(&page);
    assert!(webmcp_messages(&findings, WebMcpLintSeverity::Error)
        .iter()
        .any(|m| m.contains("tooldescription")));
}

#[test]
fn duplicate_toolnames_are_an_error() {
    let page = parse_html(
        r#"<form toolname="go" tooldescription="Go" action="/a"></form>
           <form toolname="go" tooldescription="Go again" action="/b"></form>"#,
    );
    let findings = lint_webmcp(&page);
    assert!(webmcp_messages(&findings, WebMcpLintSeverity::Error)
        .iter()
        .any(|m| m.contains("2 formularios")));
}

#[test]
fn field_without_name_is_a_warning() {
    let page = parse_html(
        r#"<form toolname="go" tooldescription="Go" action="/x"><input type="text"></form>"#,
    );
    let findings = lint_webmcp(&page);
    assert!(webmcp_messages(&findings, WebMcpLintSeverity::Warning)
        .iter()
        .any(|m| m.contains("no tiene 'name'")));
}

#[test]
fn empty_select_is_a_warning() {
    let page = parse_html(
        r#"<form toolname="go" tooldescription="Go" action="/x"><select name="team"></select></form>"#,
    );
    let findings = lint_webmcp(&page);
    assert!(webmcp_messages(&findings, WebMcpLintSeverity::Warning)
        .iter()
        .any(|m| m.contains("enum vacio")));
}

#[test]
fn missing_action_is_a_warning() {
    let page = parse_html(r#"<form toolname="go" tooldescription="Go"></form>"#);
    let findings = lint_webmcp(&page);
    assert!(webmcp_messages(&findings, WebMcpLintSeverity::Warning)
        .iter()
        .any(|m| m.contains("'action'")));
}

#[test]
fn post_method_is_an_info_note_not_an_error() {
    let page = parse_html(
        r#"<form toolname="go" tooldescription="Go" action="/x" method="post"></form>"#,
    );
    let findings = lint_webmcp(&page);
    assert!(webmcp_messages(&findings, WebMcpLintSeverity::Info)
        .iter()
        .any(|m| m.contains("method=\"post\"")));
    assert!(findings
        .iter()
        .all(|f| f.severity != WebMcpLintSeverity::Error || !f.message.contains("post")));
}

#[test]
fn field_without_toolparamdescription_is_an_info_note() {
    let page = parse_html(
        r#"<form toolname="go" tooldescription="Go" action="/x"><input name="q"></form>"#,
    );
    let findings = lint_webmcp(&page);
    assert!(webmcp_messages(&findings, WebMcpLintSeverity::Info)
        .iter()
        .any(|m| m.contains("toolparamdescription")));
}

#[test]
fn toolname_with_spaces_is_a_warning() {
    let page =
        parse_html(r#"<form toolname="go now" tooldescription="Go" action="/x"></form>"#);
    let findings = lint_webmcp(&page);
    assert!(webmcp_messages(&findings, WebMcpLintSeverity::Warning)
        .iter()
        .any(|m| m.contains("caracteres fuera de")));
}

#[test]
fn tool_messages_are_exact_and_in_order() {
    let page = parse_html(
        r#"<form toolname="a b" method="POST"><input type="text"><select name="team"></select></form><form toolname=""></form><form></form>"#,
    );
    let findings = lint_webmcp(&page);
    let lines: Vec<(WebMcpLintSeverity, &str, &str)> =
        findings.iter().map(|f| (f.severity, f.tool.as_str(), f.message.as_str())).collect();
    let action = "el formulario no tiene 'action': el submit apuntara a la URL de la propia pagina, probablemente no es lo que se busca";
    let description = "falta tooldescription (obligatorio: sin descripcion el agente no sabe cuando usar la tool)";
    assert_eq!(
        lines,
        vec![
            (WebMcpLintSeverity::Warning, "a b", "toolname 'a b' tiene caracteres fuera de [A-Za-z0-9_-]; algunos backends de tool-calling lo rechazan"),
            (WebMcpLintSeverity::Error, "a b", description),
            (WebMcpLintSeverity::Warning, "a b", action),
            (WebMcpLintSeverity::Info, "a b", "method=\"post\": kite-lite solo puede simular un submit GET (browser_call_tool no reflejara el comportamiento real de este formulario) — probalo tambien en un navegador con WebMCP nativo"),
            (WebMcpLintSeverity::Warning, "a b", "un <input> del formulario no tiene 'name': queda fuera del schema y el agente no podra completarlo"),
            (WebMcpLintSeverity::Info, "a b", "el campo 'team' no tiene toolparamdescription; no es obligatorio pero ayuda al agente a completarlo bien"),
            (WebMcpLintSeverity::Warning, "a b", "<select name=\"team\"> no tiene ninguna <option>: el schema generado tendria un enum vacio"),
            (WebMcpLintSeverity::Error, "", "toolname esta vacio"),
            (WebMcpLintSeverity::Error, "", description),
            (WebMcpLintSeverity::Warning, "", action),
        ]
    );
}

#[test]
fn findings_are_added_at_the_end() {
    let mut findings = Vec::new();
    add_finding(&mut findings, WebMcpLintSeverity::Info, "t", "first".to_string());
    add_finding(&mut findings, WebMcpLintSeverity::Error, "u", "second".to_string());
    assert_eq!(findings.len(), 2);
    assert_eq!(findings[1].severity, WebMcpLintSeverity::Error);
    assert_eq!((findings[1].tool.as_str(), findings[1].message.as_str()), ("u", "second"));
}

#[test]
fn reports_label_each_finding() {
    let page = parse_html(r#"<form toolname="go now"><input name="q"></form>"#);
    let entries = webmcp_entries(&lint_webmcp(&page));
    let lines = report_lines(&entries, "Sin hallazgos");
    assert!(lines[0].starts_with("[WARN ] go now: toolname 'go now'"), "{}", lines[0]);
    assert!(lines[1].starts_with("[ERROR] go now: falta tooldescription"), "{}", lines[1]);
    assert!(lines[3].starts_with("[INFO ] go now: el campo 'q'"), "{}", lines[3]);
    assert_eq!(
        failure(&entries, "WebMCP declarativo").as_deref(),
        Some("1 error(es) de WebMCP declarativo encontrados")
    );
    let none = a11y_entries(&Vec::new());
    assert_eq!(report_lines(&none, "Sin hallazgos"), vec!["Sin hallazgos"]);
    assert_eq!(failure(&none, "accesibilidad"), None);
}

#[test]
fn reports_fail_only_on_errors() {
    let page = parse_html("<img><h3>x</h3>");
    assert_eq!(failure(&a11y_entries(&lint_a11y(&page)), "accesibilidad"), None);
    let seo = seo_entries(&lint_seo(&page));
    assert_eq!(failure(&seo, "SEO").as_deref(), Some("1 error(es) de SEO encontrados"));
    let (preview, findings) = lint_social(&page);
    let social = social_entries(&findings);
    assert_eq!(
        failure(&social, "preview social").as_deref(),
        Some("1 error(es) de preview social encontrados")
    );
    assert_eq!(
        preview_lines(&preview),
        vec!["Titulo:      (ninguno)", "Descripcion: x", "Imagen:      (ninguna)"]
    );
}

#[test]
fn arguments_say_where_a_page_is() {
    assert_eq!(page_source("https://example.com/page.json"), PageSource::Url);
    assert_eq!(page_source("http://example.com"), PageSource::Url);
    assert_eq!(page_source("page.json"), PageSource::Snapshot);
    assert_eq!(page_source("page.html"), PageSource::Html);
    assert_eq!(page_source("HTTP://x"), PageSource::Html);
}

#[test]
fn extensions_say_which_format_is_wanted() {
    assert_eq!(format_of_extension(Some("PNG")), OutputFormat::Png);
    assert_eq!(format_of_extension(Some("pdf")), OutputFormat::Pdf);
    assert_eq!(format_of_extension(Some("txt")), OutputFormat::Svg);
    assert_eq!(format_of_extension(None), OutputFormat::Svg);
}
