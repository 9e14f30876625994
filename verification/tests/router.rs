use salvo_router::handler::Named;
use salvo_router::path_state::PathState;
use salvo_router::request::{Method, Request};
use salvo_router::router::Router;

type FakeHandler = Named<()>;

fn fake_handler() -> FakeHandler {
    Named::new("salvo_core::routing::router::tests::fake_handler", ())
}

/// The request for `method` and `url`, with the URI parsed by `http`.
fn request_for(method: Method, url: &str) -> Request {
    let uri: http::Uri = url.parse().unwrap();
    Request {
        method,
        scheme: uri.scheme_str().map(|s| s.to_string()),
        host: uri.host().map(|h| h.to_string()),
        port: uri.port_u16(),
        path: uri.path().to_string(),
    }
}

fn detect_url(router: &Router<FakeHandler>, url: &str) -> (bool, PathState) {
    let mut req = request_for(Method::Get, url);
    let path = req.path.clone();
    let mut path_state = PathState::new(&path);
    let matched = router.detect(&mut req, &mut path_state);
    (matched.is_some(), path_state)
}

#[test]
fn test_router_debug() {
    let router = Router::default()
        .push(
            Router::with_path("users")
                .push(Router::with_path("<id>").push(Router::with_path("emails").get(fake_handler())))
                .push(
                    Router::with_path("<id>/articles/<aid>")
                        .get(fake_handler())
                        .delete(fake_handler()),
                ),
        )
        .push(
            Router::with_path("articles")
                .push(
                    Router::with_path("<id>/authors/<aid>")
                        .get(fake_handler())
                        .delete(fake_handler()),
                )
                .push(Router::with_path("<id>").get(fake_handler()).delete(fake_handler())),
        );
    assert_eq!(
        router.to_tree_string(),
        r#"└──!NULL!
    ├──users
    │   ├──<id>
    │   │   └──emails
    │   │       └──[GET] -> salvo_core::routing::router::tests::fake_handler
    │   └──<id>/articles/<aid>
    │       ├──[GET] -> salvo_core::routing::router::tests::fake_handler
    │       └──[DELETE] -> salvo_core::routing::router::tests::fake_handler
    └──articles
        ├──<id>/authors/<aid>
        │   ├──[GET] -> salvo_core::routing::router::tests::fake_handler
        │   └──[DELETE] -> salvo_core::routing::router::tests::fake_handler
        └──<id>
            ├──[GET] -> salvo_core::routing::router::tests::fake_handler
            └──[DELETE] -> salvo_core::routing::router::tests::fake_handler
"#
    );
}

#[test]
fn test_router_detect1() {
    let router = Router::default().push(
        Router::with_path("users")
            .push(Router::with_path("<id>").push(Router::with_path("emails").get(fake_handler()))),
    );
    let (matched, _) = detect_url(&router, "http://local.host/users/12/emails");
    assert!(matched);
}

#[test]
fn test_router_detect2() {
    let router = Router::new()
        .push(Router::with_path("users").push(Router::with_path("<id>").get(fake_handler())))
        .push(
            Router::with_path("users")
                .push(Router::with_path("<id>").push(Router::with_path("emails").get(fake_handler()))),
        );
    let (matched, _) = detect_url(&router, "http://local.host/users/12/emails");
    assert!(matched);
}

#[test]
fn test_router_detect3() {
    let router = Router::new().push(
        Router::with_path("users").push(
            Router::with_path(r"<id:/\d+/>")
                .push(Router::new().push(Router::with_path("facebook/insights/<**rest>").handle(fake_handler()))),
        ),
    );
    let (matched, _) = detect_url(&router, "http://local.host/users/12/facebook/insights");
    assert!(matched);

    let (matched, _) = detect_url(&router, "http://local.host/users/12/facebook/insights/23");
    assert!(matched);
}

#[test]
fn test_router_detect4() {
    let router = Router::new().push(
        Router::with_path("users").push(
            Router::with_path(r"<id:/\d+/>")
                .push(Router::new().push(Router::with_path("facebook/insights/<*rest>").handle(fake_handler()))),
        ),
    );
    let (matched, _) = detect_url(&router, "http://local.host/users/12/facebook/insights");
    assert!(!matched);

    let (matched, _) = detect_url(&router, "http://local.host/users/12/facebook/insights/23");
    assert!(matched);
}

#[test]
fn test_router_detect5() {
    let router =
        Router::new().push(Router::with_path("users").push(Router::with_path(r"<id:/\d+/>").push(
            Router::new().push(
                Router::with_path("facebook/insights").push(Router::with_path("<**rest>").handle(fake_handler())),
            ),
        )));
    let (matched, _) = detect_url(&router, "http://local.host/users/12/facebook/insights");
    assert!(matched);

    let (matched, path_state) = detect_url(&router, "http://local.host/users/12/facebook/insights/23");
    assert!(matched);
    assert_eq!(path_state.params.get("id").unwrap(), "12");
}

#[test]
fn test_router_detect6() {
    let router =
        Router::new().push(Router::with_path("users").push(Router::with_path(r"<id:/\d+/>").push(
            Router::new().push(
                Router::with_path("facebook/insights").push(Router::new().path("<*rest>").handle(fake_handler())),
            ),
        )));
    let (matched, _) = detect_url(&router, "http://local.host/users/12/facebook/insights");
    assert!(!matched);

    let (matched, _) = detect_url(&router, "http://local.host/users/12/facebook/insights/23");
    assert!(matched);
}

#[test]
fn test_router_detect_utf8() {
    let router =
        Router::new().push(Router::with_path("\u{7528}\u{6237}").push(Router::with_path(r"<id:/\d+/>").push(
            Router::new().push(
                Router::with_path("facebook/insights").push(Router::with_path("<*rest>").handle(fake_handler())),
            ),
        )));
    let (matched, _) = detect_url(&router, "http://local.host/%E7%94%A8%E6%88%B7/12/facebook/insights");
    assert!(!matched);

    let (matched, _) = detect_url(&router, "http://local.host/%E7%94%A8%E6%88%B7/12/facebook/insights/23");
    assert!(matched);
}

#[test]
fn test_router_detect9() {
    let router =
        Router::new().push(Router::with_path("users/<*sub:/(images|css)/>/<filename>").handle(fake_handler()));
    let (matched, _) = detect_url(&router, "http://local.host/users/12/m.jpg");
    assert!(!matched);

    let (matched, _) = detect_url(&router, "http://local.host/users/css/m.jpg");
    assert!(matched);
}

#[test]
fn test_router_detect10() {
    let router = Router::new().push(Router::with_path(r"users/<*sub:/(images|css)/.+/>").handle(fake_handler()));
    let (matched, _) = detect_url(&router, "http://local.host/users/12/m.jpg");
    assert!(!matched);

    let (matched, _) = detect_url(&router, "http://local.host/users/css/abc/m.jpg");
    assert!(matched);
}

#[test]
fn test_router_detect11() {
    let router =
        Router::new().push(Router::with_path(r"avatars/<width:/\d+/>x<height:/\d+/>.<ext>").handle(fake_handler()));
    let (matched, _) = detect_url(&router, "http://local.host/avatars/321x641f.webp");
    assert!(!matched);

    let (matched, _) = detect_url(&router, "http://local.host/avatars/320x640.webp");
    assert!(matched);
}

#[test]
fn test_router_detect12() {
    let router = Router::new().push(Router::with_path("/.well-known/acme-challenge/<token>").handle(fake_handler()));

    let (matched, _) = detect_url(&router, "http://local.host/.well-known/acme-challenge/q1XXrxIx79uXNl3I");
    assert!(matched);
}

#[test]
fn test_router_detect13() {
    let router = Router::new()
        .path("user/<id:/[0-9a-z]{8}(-[0-9a-z]{4}){3}-[0-9a-z]{12}/>")
        .get(fake_handler());
    let (matched, _) = detect_url(&router, "http://local.host/user/726d694c-7af0-4bb0-9d22-706f7e38641e");
    assert!(matched);
    let (matched, _) = detect_url(&router, "http://local.host/user/726d694c-7af0-4bb0-9d22-706f7e386e");
    assert!(!matched);
}

#[test]
fn test_router_detect_path_encoded() {
    let router = Router::new().path("api/<p>").get(fake_handler());
    let (matched, path_state) = detect_url(&router, "http://127.0.0.1:6060/api/a%2fb%2fc");
    assert!(matched);
    assert_eq!(path_state.params.get("p").unwrap(), "a/b/c");
}
