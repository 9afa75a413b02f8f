use foundations_telemetry::routes::{
    route_request, BuiltInRoute, RouteHandler, RouteOutcome, RouteSpec, Routes, ServerFeatures,
};

const ALL: ServerFeatures =
    ServerFeatures { metrics: true, memory_profiling: true, linux: true, tracing: true };

fn spec(path: &str, methods: &[&str]) -> RouteSpec {
    RouteSpec { path: path.to_string(), methods: methods.iter().map(|m| m.to_string()).collect() }
}

#[test]
fn built_in_routes_are_served() {
    let routes = Routes::new(&vec![], ALL).expect("the routers take these routes");
    assert_eq!(
        route_request(&routes, "GET", "/health"),
        RouteOutcome::Handle(RouteHandler::BuiltIn(BuiltInRoute::Health))
    );
    assert_eq!(
        route_request(&routes, "GET", "/metrics"),
        RouteOutcome::Handle(RouteHandler::BuiltIn(BuiltInRoute::Metrics))
    );
    assert_eq!(
        route_request(&routes, "POST", "/pprof/symbol"),
        RouteOutcome::Handle(RouteHandler::BuiltIn(BuiltInRoute::PprofSymbol))
    );
    assert_eq!(
        route_request(&routes, "GET", "/debug/traces"),
        RouteOutcome::Handle(RouteHandler::BuiltIn(BuiltInRoute::DebugTraces))
    );
    assert_eq!(route_request(&routes, "POST", "/health"), RouteOutcome::NotFound);
}

#[test]
fn routes_follow_the_features() {
    let routes = Routes::new(
        &vec![],
        ServerFeatures { metrics: false, memory_profiling: true, linux: false, tracing: false },
    ).expect("the routers take these routes");
    assert_eq!(route_request(&routes, "GET", "/metrics"), RouteOutcome::NotFound);
    assert_eq!(route_request(&routes, "GET", "/pprof/heap"), RouteOutcome::NotFound);
    assert_eq!(
        route_request(&routes, "GET", "/pprof/symbol"),
        RouteOutcome::Handle(RouteHandler::BuiltIn(BuiltInRoute::PprofSymbol))
    );
    assert_eq!(route_request(&routes, "GET", "/debug/traces"), RouteOutcome::NotFound);
}

#[test]
fn the_first_route_inserted_wins() {
    let custom = vec![
        spec("/health", &["GET", "POST"]),
        spec("/custom", &["GET"]),
        spec("/custom", &["GET", "PUT"]),
    ];
    let routes = Routes::new(&custom, ALL).expect("the routers take these routes");
    // Built-in routes are inserted first.
    assert_eq!(
        routes.handler("GET", "/health"),
        Some(RouteHandler::BuiltIn(BuiltInRoute::Health))
    );
    assert_eq!(routes.handler("POST", "/health"), Some(RouteHandler::Custom(0)));
    assert_eq!(routes.handler("GET", "/custom"), Some(RouteHandler::Custom(1)));
    assert_eq!(routes.handler("PUT", "/custom"), Some(RouteHandler::Custom(2)));
    assert_eq!(routes.handler("DELETE", "/custom"), None);
}

#[test]
fn paths_are_percent_decoded() {
    let routes = Routes::new(&vec![spec("/a b/{x}", &["GET"])], ALL).expect("the routers take these routes");
    assert_eq!(
        route_request(&routes, "GET", "/he%61lth"),
        RouteOutcome::Handle(RouteHandler::BuiltIn(BuiltInRoute::Health))
    );
    // Braces are literal and a space is decoded.
    assert_eq!(
        route_request(&routes, "GET", "/a%20b/%7Bx%7D"),
        RouteOutcome::Handle(RouteHandler::Custom(0))
    );
    // An incomplete escape stays as it is.
    assert_eq!(route_request(&routes, "GET", "/health%2"), RouteOutcome::NotFound);
}

#[test]
fn invalid_utf8_is_a_bad_request() {
    let routes = Routes::new(&vec![], ALL).expect("the routers take these routes");
    assert_eq!(route_request(&routes, "GET", "/%ff"), RouteOutcome::BadRequest);
    assert_eq!(route_request(&routes, "GET", "/%C3%A9"), RouteOutcome::NotFound);
}

#[test]
fn content_types_of_built_in_routes() {
    assert_eq!(BuiltInRoute::Health.content_type(), "text/plain");
    assert_eq!(
        BuiltInRoute::Metrics.content_type(),
        "application/openmetrics-text; version=1.0.0; charset=utf-8"
    );
    assert_eq!(BuiltInRoute::PprofHeap.content_type(), "application/x-gperftools-profile");
    assert_eq!(BuiltInRoute::PprofHeapStats.content_type(), "text/plain; charset=utf-8");
    assert_eq!(BuiltInRoute::DebugTraces.content_type(), "application/json; charset=utf-8");
    assert_eq!(BuiltInRoute::PprofSymbol.methods(), vec!["GET".to_string(), "POST".to_string()]);
}

#[test]
fn repeated_path_with_a_brace_keeps_the_first_route() {
    let custom = vec![spec("/a{b}", &["GET"]), spec("/ok", &["GET"]), spec("/a{b}", &["GET"])];
    let routes = Routes::new(&custom, ALL).expect("a repeated path is ignored");
    assert_eq!(routes.handler("GET", "/a{b}"), Some(RouteHandler::Custom(0)));
    assert_eq!(routes.handler("GET", "/ok"), Some(RouteHandler::Custom(1)));
}

#[test]
fn repeated_path_with_a_brace_for_another_method_is_taken() {
    let custom = vec![spec("/a{b}", &["GET"]), spec("/a{b}", &["PUT"])];
    let routes = Routes::new(&custom, ALL).expect("different methods do not collide");
    assert_eq!(routes.handler("GET", "/a{b}"), Some(RouteHandler::Custom(0)));
    assert_eq!(routes.handler("PUT", "/a{b}"), Some(RouteHandler::Custom(1)));
}

#[test]
fn empty_path_alone_in_a_router_is_replaced() {
    let custom = vec![spec("", &["PUT"]), spec("/x", &["PUT"])];
    let routes = Routes::new(&custom, ALL).expect("the routers take these routes");
    assert_eq!(routes.handler("PUT", "/x"), Some(RouteHandler::Custom(1)));
    assert_eq!(routes.handler("PUT", ""), None);
}

#[test]
fn empty_path_beside_other_routes_stays() {
    let custom = vec![spec("", &["GET"]), spec("/x", &["GET"])];
    let routes = Routes::new(&custom, ALL).expect("the routers take these routes");
    assert_eq!(routes.handler("GET", ""), Some(RouteHandler::Custom(0)));
    assert_eq!(routes.handler("GET", "/x"), Some(RouteHandler::Custom(1)));
}

#[test]
fn conflict_message_names_both_routes() {
    let err = foundations_telemetry::routes::RouteConflict {
        route: "/a{{b}}".to_string(),
        with: "/a{c}".to_string(),
    };
    assert_eq!(
        err.message(),
        "tried to insert route `/a{{b}}`, but Insertion failed due to conflict with previously registered route: /a{c}"
    );
}
