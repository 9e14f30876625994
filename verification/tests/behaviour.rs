use salvo_router::filter::{self, FnFilter, Filter};
use salvo_router::handler::{Named, WhenHoop};
use salvo_router::path_filter::{leading_from_search, PathFilter};
use salvo_router::path_state::{PathParams, PathState};
use salvo_router::pattern::PathError;
use salvo_router::request::{Method, Request, Scheme};
use salvo_router::router::Router;

fn named(name: &str) -> Named<()> {
    Named::new(name, ())
}

/// The request for `method` and `url`, with the URI parsed by `http`.
fn request_for(method: Method, url: &str) -> Request {
    let uri: http::Uri = url.parse().unwrap();
    Request {
        method,
        scheme: uri.scheme_str().map(|s| s.to_string()),
        host: uri.host().map(|h| h.to_string()),
        port: uri.port_u16(),
        path: uri.path().to_string(),
    }
}

fn request(method: Method, url: &str) -> (Request, PathState) {
    let req = request_for(method, url);
    let path = req.path.clone();
    let state = PathState::new(&path);
    (req, state)
}

fn matched_names(router: &Router<Named<()>>, method: Method, url: &str) -> Option<(Vec<String>, String)> {
    let (mut req, mut state) = request(method, url);
    router
        .detect(&mut req, &mut state)
        .map(|m| (m.hoops.iter().map(|h| h.name.clone()).collect(), m.handler.name.clone()))
}

#[test]
fn path_state_splits_and_decodes() {
    let state = PathState::new("//a%41/%E7%94%A8//b/");
    assert_eq!(state.parts, vec!["aA".to_string(), "\u{7528}".to_string(), "b".to_string()]);
    assert!(state.end_slash);
    assert_eq!(state.cursor, (0, 0));
    assert!(!state.ended());
}

#[test]
fn path_state_decodes_invalid_utf8_lossily() {
    let state = PathState::new("/%FF/x");
    assert_eq!(state.parts, vec!["\u{FFFD}".to_string(), "x".to_string()]);
}

#[test]
fn path_state_keeps_malformed_escapes() {
    let state = PathState::new("/a%2/%zz");
    assert_eq!(state.parts, vec!["a%2".to_string(), "%zz".to_string()]);
}

#[test]
fn path_state_pick_rest_and_forward() {
    let mut state = PathState::new("/ab/cd/");
    assert_eq!(state.pick().as_deref(), Some("ab"));
    assert_eq!(state.all_rest().as_deref(), Some("ab/cd/"));
    state.forward(1);
    assert_eq!(state.cursor, (0, 1));
    assert_eq!(state.pick().as_deref(), Some("b"));
    state.forward(2);
    assert_eq!(state.cursor, (1, 0));
    assert_eq!(state.all_rest().as_deref(), Some("cd/"));
    state.forward(3);
    assert!(state.ended());
    assert_eq!(state.pick(), None);
    assert_eq!(state.all_rest(), None);

    let mut state = PathState::new("/ab/cd");
    state.cursor = (0, 5);
    state.forward(0);
    assert_eq!(state.cursor, (0, 5));
    state.forward(1);
    assert_eq!(state.cursor, (1, 0));
}

#[test]
fn params_read_after_write() {
    let mut params = PathParams::new();
    params.insert("a".to_string(), "1".to_string());
    params.insert("b".to_string(), "2".to_string());
    params.insert("a".to_string(), "3".to_string());
    assert_eq!(params.get("a").as_deref(), Some("3"));
    assert_eq!(params.get("b").as_deref(), Some("2"));
    assert_eq!(params.get("c"), None);
    assert_eq!(params.entries.len(), 2);
    assert_eq!(params.entries[0].0, "a");
}

#[test]
fn pattern_errors() {
    assert_eq!(PathFilter::parse("a/<id").err(), Some(PathError::UnclosedParam));
    assert_eq!(PathFilter::parse("a/<>").err(), Some(PathError::EmptyName));
    assert_eq!(PathFilter::parse("a/<**>").err(), Some(PathError::EmptyName));
    assert_eq!(PathFilter::parse("a/<***x>").err(), Some(PathError::InvalidName));
    assert_eq!(PathFilter::parse("a/<id:x>").err(), Some(PathError::MissingRegex));
    assert_eq!(PathFilter::parse(r"a/<id:/\d+>").err(), Some(PathError::UnclosedRegex));
    assert_eq!(PathFilter::parse("a/<id://>").err(), Some(PathError::EmptyRegex));
    assert_eq!(PathFilter::parse("a/<id:/(/>").err(), Some(PathError::InvalidRegex));
    assert_eq!(PathFilter::parse("<a><b>").err(), Some(PathError::AdjacentParams));
    assert_eq!(PathFilter::parse("<*rest>/x").err(), Some(PathError::RestNotLast));
    assert!(Router::<Named<()>>::try_with_path("<a><b>").is_err());
    assert!(Router::<Named<()>>::try_with_path("a/<b>").is_ok());
    assert!(Router::<Named<()>>::new().try_path("<*rest>/x").is_err());
}

#[test]
fn path_filter_consumes_and_captures() {
    let filter = PathFilter::new("files/<name>.<ext>");
    let mut state = PathState::new("/files/report.tar.gz/more");
    assert!(filter.detect(&mut state));
    assert_eq!(state.cursor, (2, 0));
    assert_eq!(state.params.get("name").as_deref(), Some("report"));
    assert_eq!(state.params.get("ext").as_deref(), Some("tar.gz"));
}

#[test]
fn path_filter_failure_leaves_state_alone() {
    let filter = PathFilter::new("a/<x>/c");
    let mut state = PathState::new("/a/b/d");
    assert!(!filter.detect(&mut state));
    assert_eq!(state.cursor, (0, 0));
    assert_eq!(state.params.entries.len(), 0);
}

#[test]
fn path_filter_segment_must_be_consumed_whole() {
    let filter = PathFilter::new("user");
    let mut state = PathState::new("/users");
    assert!(!filter.detect(&mut state));
}

#[test]
fn double_star_takes_all_of_the_rest() {
    let filter = PathFilter::new("<**rest>");
    let mut state = PathState::new("/a/b/c/");
    assert!(filter.detect(&mut state));
    assert!(state.ended());
    assert_eq!(state.params.get("rest").as_deref(), Some("a/b/c/"));

    let mut state = PathState::new("/");
    assert!(filter.detect(&mut state));
    assert_eq!(state.params.get("rest").as_deref(), Some(""));
}

#[test]
fn single_star_needs_some_rest() {
    let filter = PathFilter::new("x/<*rest>");
    let mut state = PathState::new("/x");
    assert!(!filter.detect(&mut state));
    let mut state = PathState::new("/x/y");
    assert!(filter.detect(&mut state));
    assert_eq!(state.params.get("rest").as_deref(), Some("y"));
}

#[test]
fn regex_param_must_match_at_the_start() {
    let filter = PathFilter::new(r"<id:/\d+/>");
    let mut state = PathState::new("/ab12");
    assert!(!filter.detect(&mut state));
    let mut state = PathState::new("/12ab");
    assert!(!filter.detect(&mut state));
    let mut state = PathState::new("/1234");
    assert!(filter.detect(&mut state));
    assert_eq!(state.params.get("id").as_deref(), Some("1234"));
}

#[test]
fn empty_pattern_matches_without_consuming() {
    let filter = PathFilter::new("/");
    let mut state = PathState::new("/a");
    assert!(filter.detect(&mut state));
    assert_eq!(state.cursor, (0, 0));
}

#[test]
fn filter_descriptions() {
    assert_eq!(filter::get().info(), "method:GET");
    assert_eq!(filter::options().info(), "method:OPTIONS");
    assert_eq!(filter::scheme(Scheme::Https, false).info(), "scheme:https");
    assert_eq!(filter::host("example.com", true).info(), "host:example.com");
    assert_eq!(filter::port(8080, false).info(), "port:8080");
    assert_eq!(filter::port(0, false).info(), "port:0");
    assert_eq!(PathFilter::new("a/<b>").info(), "path:a/<b>");
}

#[test]
fn listing_shows_other_filters_in_brackets() {
    let router: Router<Named<()>> = Router::new()
        .push(
            Router::with_path("api")
                .host("example.com", false)
                .port(8080, true)
                .handle(named("h")),
        )
        .push(Router::new().scheme(Scheme::Http, false));
    assert_eq!(
        router.to_tree_string(),
        "\u{2514}\u{2500}\u{2500}!NULL!\n    \u{251c}\u{2500}\u{2500}api[example.com,8080] -> h\n    \u{2514}\u{2500}\u{2500}[http]\n"
    );
}

#[test]
fn listing_single_router() {
    let router: Router<Named<()>> = Router::with_path("a").handle(named("x"));
    assert_eq!(router.to_tree_string(), "\u{2514}\u{2500}\u{2500}a -> x\n");
}

#[test]
fn method_filters_select_children() {
    let router = Router::with_path("items")
        .get(named("list"))
        .post(named("create"))
        .put(named("replace"))
        .delete(named("remove"))
        .patch(named("edit"))
        .head(named("peek"))
        .options(named("opts"));
    let cases = [
        (Method::Get, "list"),
        (Method::Post, "create"),
        (Method::Put, "replace"),
        (Method::Delete, "remove"),
        (Method::Patch, "edit"),
        (Method::Head, "peek"),
        (Method::Options, "opts"),
    ];
    for (method, name) in cases {
        let found = matched_names(&router, method, "http://h/items").unwrap();
        assert_eq!(found.1, name);
    }
    assert!(matched_names(&router, Method::Trace, "http://h/items").is_none());
}

#[test]
fn hoops_run_from_the_root_down() {
    let router = Router::with_hoop(named("root"))
        .hoop(named("root2"))
        .push(Router::with_path("a").hoop(named("mid")).push(Router::with_path("b").hoop(named("leaf")).handle(named("h"))));
    let (hoops, handler) = matched_names(&router, Method::Get, "http://h/a/b").unwrap();
    assert_eq!(hoops, vec!["root", "root2", "mid", "leaf"]);
    assert_eq!(handler, "h");
}

#[test]
fn first_matching_child_wins() {
    let router = Router::new()
        .push(Router::with_path("<x>").handle(named("first")))
        .push(Router::with_path("a").handle(named("second")));
    assert_eq!(matched_names(&router, Method::Get, "http://h/a").unwrap().1, "first");
}

#[test]
fn failed_child_puts_the_cursor_back() {
    let router = Router::with_path("a").push(Router::with_path("b/c").handle(named("deep")));
    let (mut req, mut state) = request(Method::Get, "http://h/a/b/x");
    assert!(router.detect(&mut req, &mut state).is_none());
    assert_eq!(state.cursor, (1, 0));
}

#[test]
fn handler_needs_the_whole_path() {
    let router = Router::with_path("a").handle(named("h"));
    assert!(matched_names(&router, Method::Get, "http://h/a").is_some());
    assert!(matched_names(&router, Method::Get, "http://h/a/b").is_none());
}

#[test]
fn leaf_without_filters_matches_ended_path_only() {
    let router = Router::new().handle(named("h"));
    assert!(matched_names(&router, Method::Get, "http://h/").is_some());
    assert!(matched_names(&router, Method::Get, "http://h/x").is_none());
}

#[test]
fn scheme_host_and_port_filters() {
    let router = Router::new()
        .scheme(Scheme::Https, false)
        .host("example.com", false)
        .port(443, true)
        .handle(named("h"));
    assert!(matched_names(&router, Method::Get, "https://example.com/").is_some());
    assert!(matched_names(&router, Method::Get, "https://example.com:443/").is_some());
    assert!(matched_names(&router, Method::Get, "https://example.com:8443/").is_none());
    assert!(matched_names(&router, Method::Get, "http://example.com/").is_none());
    assert!(matched_names(&router, Method::Get, "https://other.com/").is_none());
    assert!(matched_names(&router, Method::Get, "/").is_none());
    let lenient = Router::new().scheme(Scheme::Http, true).host("x", true).handle(named("h"));
    assert!(matched_names(&lenient, Method::Get, "/").is_some());
    let ws = Router::new().scheme(Scheme::Other("ws".to_string()), false).handle(named("h"));
    assert!(matched_names(&ws, Method::Get, "ws://example.com/").is_some());
    assert!(matched_names(&ws, Method::Get, "http://example.com/").is_none());
    assert_eq!(filter::scheme(Scheme::Other("ws".to_string()), false).info(), "scheme:ws");
}

#[test]
fn function_filters() {
    let router = Router::with_filter_fn(|req: &Request, _state: &PathState| req.method == Method::Put)
        .push(Router::new().filter_fn(|_req: &Request, state: &PathState| state.parts.len() == 1).handle(named("one")));
    assert!(matched_names(&router, Method::Put, "http://h/").is_none());
    let router = Router::with_filter_fn(|req: &Request, _state: &PathState| req.method == Method::Put)
        .push(Router::new().filter_fn(|_req: &Request, state: &PathState| state.parts.is_empty()).handle(named("none")));
    assert!(matched_names(&router, Method::Put, "http://h/").is_some());
    assert!(matched_names(&router, Method::Get, "http://h/").is_none());
    assert_eq!(FnFilter::new(|_r: &Request, _s: &PathState| true).info(), "fn:fn");
}

#[test]
fn general_filters_and_accessors() {
    let mut router: Router<Named<()>> = Router::with_filter(filter::get()).filter(filter::port(80, false));
    assert_eq!(router.filters().len(), 2);
    router.filters_mut().pop();
    assert_eq!(router.filters().len(), 1);
    router.hoops_mut().push(named("m"));
    assert_eq!(router.hoops().len(), 1);
    router.routers_mut().push(Router::new());
    assert_eq!(router.routers().len(), 1);
    let router = router.append(vec![Router::new(), Router::with_path("z")]);
    assert_eq!(router.routers().len(), 3);
    let router = router.then_apply(|r| r.push(Router::new()));
    assert_eq!(router.routers().len(), 4);
}

/// A request's store of values, as a guard sees it.
struct Depot {
    user: Option<String>,
}

#[derive(Clone, Debug, PartialEq)]
enum Hoop {
    Plain(&'static str),
    Guarded(&'static str),
}

impl<F> From<WhenHoop<Hoop, F>> for Hoop {
    fn from(w: WhenHoop<Hoop, F>) -> Hoop {
        match w.inner {
            Hoop::Plain(n) | Hoop::Guarded(n) => Hoop::Guarded(n),
        }
    }
}

#[test]
fn conditional_hoops() {
    let router = Router::with_hoop_when(Hoop::Plain("auth"), |_req: &Request, _depot: &Depot| true)
        .hoop_when(Hoop::Plain("log"), |_req: &Request, _depot: &Depot| false)
        .hoop(Hoop::Plain("plain"))
        .handle(Hoop::Plain("h"));
    let (mut req, mut state) = request(Method::Get, "http://h/");
    let m = router.detect(&mut req, &mut state).unwrap();
    let hoops: Vec<Hoop> = m.hoops.iter().map(|h| (*h).clone()).collect();
    assert_eq!(hoops, vec![Hoop::Guarded("auth"), Hoop::Guarded("log"), Hoop::Plain("plain")]);
    assert_eq!(*m.handler, Hoop::Plain("h"));
}

#[test]
fn default_router_is_bare() {
    let router: Router<Named<()>> = Router::default();
    assert!(router.routers().is_empty());
    assert!(router.filters().is_empty());
    assert!(router.hoops().is_empty());
    assert!(router.handler.is_none());
}

#[test]
fn route_matches_its_own_literal_path() {
    let router = Router::with_path("shop/cart/items").get(named("h"));
    assert!(matched_names(&router, Method::Get, "http://h/shop/cart/items").is_some());
    assert!(matched_names(&router, Method::Post, "http://h/shop/cart/items").is_none());
    assert!(matched_names(&router, Method::Get, "http://h/shop/cart").is_none());
}

#[test]
fn route_tree_and_flat_route_agree() {
    let tree: Router<Named<()>> = Router::with_path("users")
        .hoop(named("auth"))
        .push(Router::with_path("<id>/posts").hoop(named("load")).get(named("posts")));
    let flat: Router<Named<()>> = Router::with_path("users/<id>/posts")
        .hoop(named("auth"))
        .hoop(named("load"))
        .get(named("posts"));
    for url in [
        "http://h/users/7/posts",
        "http://h/users/7",
        "http://h/users/7/posts/9",
        "http://h/users//7/posts/",
        "http://h/other/7/posts",
    ] {
        assert_eq!(matched_names(&tree, Method::Get, url), matched_names(&flat, Method::Get, url));
    }
    assert_eq!(
        matched_names(&tree, Method::Get, "http://h/users/7/posts"),
        Some((vec!["auth".to_string(), "load".to_string()], "posts".to_string()))
    );
    assert_eq!(matched_names(&tree, Method::Post, "http://h/users/7/posts"), None);
}

#[test]
fn guarded_hoop_applies_only_when_its_filter_accepts() {
    let only_post = WhenHoop {
        inner: named("audit"),
        filter: |req: &Request, depot: &Depot| req.method == Method::Post && depot.user.is_some(),
    };
    let signed_in = Depot { user: Some("ann".to_string()) };
    let anonymous = Depot { user: None };
    let (post, _) = request(Method::Post, "http://h/x");
    let (get, _) = request(Method::Get, "http://h/x");
    assert!(only_post.applies(&post, &signed_in));
    assert!(!only_post.applies(&post, &anonymous));
    assert!(!only_post.applies(&get, &signed_in));
}

#[test]
fn listing_has_one_line_per_router() {
    let router: Router<Named<()>> = Router::new()
        .push(Router::with_path("a").get(named("x")).post(named("y")))
        .push(Router::with_path("b").push(Router::with_path("<id>").delete(named("z"))));
    // root, a, GET, POST, b, <id>, DELETE
    let listing = router.to_tree_string();
    assert_eq!(listing.matches('\n').count(), 7);
    assert_eq!(listing.lines().count(), 7);
}

#[test]
fn writers_routes_flat_and_tree_agree() {
    let flat: Router<Named<()>> = Router::new()
        .push(Router::with_path("writers").get(named("list")).post(named("create")))
        .push(
            Router::with_path("writers/<id>")
                .get(named("show"))
                .patch(named("edit"))
                .delete(named("delete")),
        )
        .push(Router::with_path("writers/<id>/articles").get(named("articles")));
    let tree: Router<Named<()>> = Router::with_path("writers")
        .get(named("list"))
        .post(named("create"))
        .push(
            Router::with_path("<id>")
                .get(named("show"))
                .patch(named("edit"))
                .delete(named("delete"))
                .push(Router::with_path("articles").get(named("articles"))),
        );
    let methods = [Method::Get, Method::Post, Method::Patch, Method::Delete, Method::Put];
    let urls = [
        "http://h/writers",
        "http://h/writers/",
        "http://h/writers/7",
        "http://h/writers/7/articles",
        "http://h/writers/7/articles/3",
        "http://h/writers/7/other",
        "http://h/authors/7",
        "http://h/",
    ];
    for m in methods {
        for url in urls {
            assert_eq!(matched_names(&flat, m, url), matched_names(&tree, m, url));
        }
    }
    assert_eq!(matched_names(&tree, Method::Patch, "http://h/writers/7").map(|m| m.1), Some("edit".to_string()));
    assert_eq!(matched_names(&tree, Method::Get, "http://h/writers/7/articles").map(|m| m.1), Some("articles".to_string()));
}

#[test]
fn hoops_do_not_show_in_the_listing() {
    let plain: Router<Named<()>> = Router::with_path("a").push(Router::with_path("b").get(named("x")));
    let before = plain.to_tree_string();
    let mut with_hoops = plain.hoop(named("outer"));
    with_hoops.routers_mut()[0].hoops_mut().push(named("inner"));
    assert_eq!(with_hoops.to_tree_string(), before);
}

#[test]
fn search_results_give_parameters_only_leading_matches() {
    let text: Vec<char> = "12x".chars().collect();
    let found = Ok(Some((String::new(), "12".to_string())));
    assert_eq!(leading_from_search(found, &text), Some(vec!['1', '2']));
    let later = Ok(Some(("a".to_string(), "1".to_string())));
    assert_eq!(leading_from_search(later, &text), None);
    let too_long = Ok(Some((String::new(), "12x3".to_string())));
    assert_eq!(leading_from_search(too_long, &text), None);
    assert_eq!(leading_from_search(Ok(None), &text), None);
    assert_eq!(leading_from_search(Err(()), &text), None);
}

#[test]
fn parent_with_several_children_splits_into_flat_routes() {
    let parent: Router<Named<()>> = Router::with_path("api")
        .hoop(named("auth"))
        .get(named("index"))
        .post(named("create"))
        .push(Router::with_path("x").hoop(named("x-hoop")).get(named("x")))
        .push(Router::with_path("y/<id>").delete(named("y")));
    let flat: Router<Named<()>> = Router::new()
        .push(Router::with_path("api").hoop(named("auth")).get(named("index")).post(named("create")))
        .push(Router::with_path("api/x").hoop(named("auth")).hoop(named("x-hoop")).get(named("x")))
        .push(Router::with_path("api/y/<id>").hoop(named("auth")).delete(named("y")));
    let methods = [Method::Get, Method::Post, Method::Delete];
    let urls = ["http://h/api", "http://h/api/x", "http://h/api/y/3", "http://h/api/y", "http://h/api/z", "http://h/"];
    for m in methods {
        for url in urls {
            assert_eq!(matched_names(&parent, m, url), matched_names(&flat, m, url));
        }
    }
    assert_eq!(
        matched_names(&parent, Method::Get, "http://h/api/x"),
        Some((vec!["auth".to_string(), "x-hoop".to_string()], "x".to_string()))
    );
}
