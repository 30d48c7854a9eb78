//! Verified core of the dodeca static site generator.
pub mod acceptor;
pub mod anchor_fixes;
pub mod annotations;
pub mod authz;
pub mod browser_assets;
pub mod boot_state;
pub mod build_steps;
pub mod cache_bust;
pub mod cells;
pub mod completion;
pub mod config;
pub mod content_service;
pub mod dead_links;
pub mod diagnostics;
pub mod editing;
pub mod frontmatter;
pub mod frontmatter_links;
pub mod frontmatter_tables;
pub mod graph;
pub mod hover;
pub mod headings;
pub mod html_links;
pub mod link_completion;
pub mod link_hover;
pub mod markdown_headings;
pub mod links;
pub mod model;
pub mod page_hover;
pub mod paths;
pub mod positions;
pub mod project_pages;
pub mod rendered_hrefs;
pub mod route_rename;
pub mod routes;
pub mod site_graph;
pub mod template_definitions;
pub mod template_diagnostics;
pub mod template_index;
pub mod template_macro_calls;
pub mod template_references;
pub mod template_syntax;
pub mod templates;
pub mod text;
pub mod world_cache;
