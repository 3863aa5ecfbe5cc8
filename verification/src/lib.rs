//! A light web engine for agents: pages parsed into a tree of elements, laid
//! out and drawn, searched, clicked and typed into, linted, and shown to
//! isolated scripts, with the decisions of the servers that expose all this.
//!
//! What reads files, sockets and processes is not in here: it hands plain
//! values in and carries out what comes back.

#![allow(unused_imports)]

pub mod a11y;
pub mod cdp;
pub mod cookies;
pub mod dom;
pub mod forms;
pub mod html;
pub mod http;
pub mod js;
pub mod json;
pub mod layout;
pub mod links;
pub mod mcp;
pub mod model;
pub mod numbers;
pub mod outer_html;
pub mod raster;
pub mod render;
pub mod report;
pub mod seo;
pub mod seqs;
pub mod session;
pub mod social;
pub mod text;
pub mod tree;
pub mod webmcp;

pub use a11y::{lint as lint_a11y, A11yFinding, Severity as A11ySeverity};
pub use cookies::parse_set_cookie;
pub use html::parse_html;
pub use js::{JsRuntime, JsValueResult};
pub use layout::compute_layout;
pub use links::resolve_links;
pub use model::{CookieInfo, Element, EvalRequest, EvalResponse, Layout, Page};
pub use raster::{render_pdf, render_png};
pub use render::render_svg;
pub use seo::{lint as lint_seo, SeoFinding, Severity as SeoSeverity};
pub use social::{lint as lint_social, Severity as SocialSeverity, SocialFinding, SocialPreview};
pub use webmcp::{
    build_submission as build_webmcp_submission, discover_tools as discover_webmcp_tools,
    lint as lint_webmcp, LintFinding as WebMcpLintFinding, Severity as WebMcpLintSeverity,
    WebMcpTool,
};
