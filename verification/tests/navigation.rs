use appsscope::navigation::{
    browsing, capture_delay, catalog_query, category_label, fill_shelves, page_title, parse_u32,
    shelves, visible_page, CatalogQuery, Destination, Job, Request, BROWSE_LIMIT, SEARCH_LIMIT,
};
use appsscope::types::{App, AppRef, BackendId};

#[test]
fn categories_have_readable_names() {
    assert_eq!(category_label("Game"), "Games");
    assert_eq!(category_label("AudioVideo"), "Audio & Video");
    assert_eq!(category_label("Utility"), "Utilities");
    assert_eq!(category_label("Network"), "Apps");
}

#[test]
fn a_search_overrides_the_destination() {
    assert_eq!(visible_page("", &Destination::Home), "home");
    assert_eq!(visible_page("  ", &Destination::Installed), "installed");
    assert_eq!(visible_page("gimp", &Destination::Installed), "results");
    assert_eq!(visible_page("", &Destination::Category("Game".to_string())), "results");
    assert!(browsing("", &Destination::Home));
    assert!(!browsing("x", &Destination::Home));
}

#[test]
fn titles_name_the_page() {
    assert_eq!(page_title("  gimp ", &Destination::Home), "Results for \u{201c}gimp\u{201d}");
    assert_eq!(page_title("", &Destination::Updates), "Updates");
    assert_eq!(page_title("", &Destination::Category("Office".to_string())), "Productivity");
}

#[test]
fn catalog_pages_pick_their_query() {
    assert!(matches!(catalog_query("", None), CatalogQuery::Browse { limit } if limit == BROWSE_LIMIT));
    assert!(matches!(
        catalog_query(" ", Some("Game".to_string())),
        CatalogQuery::ByCategory { category, limit } if category == "Game" && limit == BROWSE_LIMIT
    ));
    assert!(matches!(
        catalog_query(" photo ", Some("Game".to_string())),
        CatalogQuery::Search { term, limit } if term == "photo" && limit == SEARCH_LIMIT
    ));
}

#[test]
fn shelves_in_display_order() {
    let s = shelves();
    assert_eq!(s.len(), 6);
    assert_eq!(s[0].title, "Recently updated");
    assert!(s[0].category.is_none());
    assert_eq!(s[5].category, Some("Office"));
}

fn app(id: &str) -> App {
    App {
        app_ref: AppRef::new(BackendId::Flatpak, id.to_string()),
        name: id.to_string(),
        summary: None,
        description: None,
        developer: None,
        license: None,
        categories: Vec::new(),
        icon: None,
        screenshots: Vec::new(),
        releases: Vec::new(),
        version: None,
        download_size: None,
        installed_size: None,
        sandbox: None,
    }
}

fn ids(row: &[App]) -> Vec<&str> {
    row.iter().map(|a| a.app_ref.id.as_str()).collect()
}

#[test]
fn no_app_appears_on_two_shelves() {
    let featured = vec!["a".to_string()];
    let results = vec![
        vec![app("a"), app("b"), app("c"), app("d")],
        vec![app("b"), app("e"), app("a"), app("f"), app("g")],
    ];
    let rows = fill_shelves(featured, results, 2);
    assert_eq!(rows.len(), 2);
    assert_eq!(ids(&rows[0]), vec!["b", "c"]);
    assert_eq!(ids(&rows[1]), vec!["e", "f"]);
}

#[test]
fn short_shelves_keep_what_is_left() {
    let rows = fill_shelves(Vec::new(), vec![vec![app("x")], Vec::new(), vec![app("x"), app("y")]], 16);
    assert_eq!(ids(&rows[0]), vec!["x"]);
    assert!(rows[1].is_empty());
    assert_eq!(ids(&rows[2]), vec!["y"]);
}

#[test]
fn numbers_parse_like_the_standard_library() {
    for text in ["0", "8", "+12", "4294967295", "007", "-1", "", "+", "1.5", " 3", "4294967296", "99999999999999999999"] {
        assert_eq!(parse_u32(text), text.parse::<u32>().ok(), "{text:?}");
    }
}

#[test]
fn capture_delay_defaults_to_eight() {
    assert_eq!(capture_delay(None), 8);
    assert_eq!(capture_delay(Some("3")), 3);
    assert_eq!(capture_delay(Some("soon")), 8);
}

#[test]
fn capture_views_pick_a_destination() {
    let request = |view: &str| Request { path: "out.png".to_string(), view: view.to_string(), delay_seconds: 8 };
    assert!(matches!(request("installed").destination(), Some(Destination::Installed)));
    assert!(matches!(request("updates").destination(), Some(Destination::Updates)));
    assert!(matches!(request("games").destination(), Some(Destination::Category(c)) if c == "Game"));
    assert!(request("home").destination().is_none());
    let job = Job(Some(request("home")));
    assert!(job.is_some());
    assert_eq!(job.request().map(|r| r.view.as_str()), Some("home"));
    assert!(!Job::none().is_some());
    assert!(job.into_request().is_some());
}
