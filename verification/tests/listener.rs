use ytm::listener::{Backoff, ListenerState, Phase, MAX_CONNECTIONS};
use ytm::service::{resolve_route, Route};

#[test]
fn backoff_doubles_until_fatal() {
    let mut b = Backoff::new();
    let mut delays = Vec::new();
    loop {
        match b.on_failure() {
            Some(d) => delays.push(d),
            None => break,
        }
    }
    assert_eq!(delays, vec![1, 2, 4, 8, 16, 32, 64]);
}

#[test]
fn admission_stops_at_the_ceiling() {
    let mut s = ListenerState::new(2);
    s.start();
    assert!(s.try_admit());
    assert!(s.try_admit());
    assert!(!s.try_admit());
    assert_eq!(s.active, 2);
    s.connection_closed();
    assert!(s.try_admit());
    assert_eq!(s.active, 2);
    assert!(s.active <= s.max_connections);
}

#[test]
fn default_ceiling_is_250() {
    assert_eq!(MAX_CONNECTIONS, 250);
}

#[test]
fn shutdown_drains_before_stopping() {
    let mut s = ListenerState::new(8);
    s.start();
    assert!(s.try_admit());
    assert!(s.try_admit());
    s.begin_shutdown();
    assert!(s.phase == Phase::Draining);
    assert!(!s.is_stopped());
    s.connection_closed();
    assert!(!s.is_stopped());
    s.connection_closed();
    assert!(s.is_stopped());
    assert_eq!(s.active, 0);
}

#[test]
fn shutdown_with_no_work_stops_at_once() {
    let mut s = ListenerState::new(8);
    s.start();
    s.begin_shutdown();
    assert!(s.is_stopped());
}

#[test]
fn routes_resolve_exactly() {
    assert!(resolve_route("GET", "/") == Route::Index);
    assert!(resolve_route("GET", "/style.css") == Route::StyleCss);
    assert!(resolve_route("GET", "/alpine.js") == Route::AlpineJs);
    assert!(resolve_route("GET", "/chart.js") == Route::ChartJs);
    assert!(resolve_route("GET", "/iframe_api") == Route::IframeApi);
    assert!(resolve_route("GET", "/www-widgetapi.js") == Route::WidgetApi);
    assert!(resolve_route("GET", "/missing") == Route::NotFound);
    assert!(resolve_route("POST", "/") == Route::NotFound);
}
