//! Request routing: which resource a request's method and path name.

use vstd::prelude::*;

use crate::text::str_eq;

verus! {

/// The resources the server can answer with.
#[derive(Clone, Copy, Debug, PartialEq, Eq, Structural)]
pub enum Route {
    /// The filtered, paginated history view.
    Index,
    StyleCss,
    AlpineJs,
    ChartJs,
    /// The patched player loader script.
    IframeApi,
    /// The locally served widget script.
    WidgetApi,
    NotFound,
}

/// The route a request names: only these six resources exist, all of
/// them under GET; everything else is not found.
pub open spec fn route_of(method: Seq<char>, path: Seq<char>) -> Route {
    if method != "GET"@ {
        Route::NotFound
    } else if path == "/"@ {
        Route::Index
    } else if path == "/style.css"@ {
        Route::StyleCss
    } else if path == "/alpine.js"@ {
        Route::AlpineJs
    } else if path == "/chart.js"@ {
        Route::ChartJs
    } else if path == "/iframe_api"@ {
        Route::IframeApi
    } else if path == "/www-widgetapi.js"@ {
        Route::WidgetApi
    } else {
        Route::NotFound
    }
}

/// Decide which resource a request asks for.
pub fn resolve_route(method: &str, path: &str) -> (r: Route)
    ensures
        r == route_of(method@, path@),
{
    if !str_eq(method, "GET") {
        Route::NotFound
    } else if str_eq(path, "/") {
        Route::Index
    } else if str_eq(path, "/style.css") {
        Route::StyleCss
    } else if str_eq(path, "/alpine.js") {
        Route::AlpineJs
    } else if str_eq(path, "/chart.js") {
        Route::ChartJs
    } else if str_eq(path, "/iframe_api") {
        Route::IframeApi
    } else if str_eq(path, "/www-widgetapi.js") {
        Route::WidgetApi
    } else {
        Route::NotFound
    }
}

} // verus!
