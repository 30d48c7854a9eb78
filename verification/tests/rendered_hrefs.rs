use dodeca::model::{AuthoringInputPath, RenderedHrefOrigin};
use dodeca::rendered_hrefs::{assign_rendered_href_origins, copy_origin};

fn s(x: &str) -> String {
    x.to_string()
}

fn origin(path: &str, start: usize) -> RenderedHrefOrigin {
    RenderedHrefOrigin { path: AuthoringInputPath::Template(s(path)), byte_start: start, byte_end: start + 4 }
}

fn described(o: &Option<RenderedHrefOrigin>) -> Option<(String, usize)> {
    o.as_ref().map(|o| match &o.path {
        AuthoringInputPath::Template(p) => (p.clone(), o.byte_start),
        _ => (s("other"), o.byte_start),
    })
}

#[test]
fn rendered_links_take_origins_in_order_then_the_first_again() {
    let hrefs = vec![s("/a"), s("/b"), s("/a"), s("/a"), s("/c")];
    let origins = vec![(s("/a"), vec![origin("base.html", 10), origin("nav.html", 20)]), (s("/b"), vec![])];
    let out = assign_rendered_href_origins(hrefs, &origins);
    let got = out.iter().map(|h| (h.href.clone(), described(&h.origin))).collect::<Vec<_>>();
    assert_eq!(
        got,
        vec![
            (s("/a"), Some((s("base.html"), 10))),
            (s("/b"), None),
            (s("/a"), Some((s("nav.html"), 20))),
            (s("/a"), Some((s("base.html"), 10))),
            (s("/c"), None),
        ]
    );
}

#[test]
fn copied_origins_keep_path_and_range() {
    let o = RenderedHrefOrigin { path: AuthoringInputPath::Source(s("guide.md")), byte_start: 3, byte_end: 9 };
    let c = copy_origin(&o);
    assert!(matches!(&c.path, AuthoringInputPath::Source(p) if p == "guide.md"));
    assert_eq!((c.byte_start, c.byte_end), (3, 9));
}
