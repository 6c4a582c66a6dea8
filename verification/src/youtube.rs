//! The third-party player scripts served locally. The runtime around
//! this crate fetches the loader script once at startup, rewrites its
//! embedded widget-script reference to the locally served path, and
//! keeps both bodies here for the process lifetime.

use vstd::prelude::*;

verus! {

/// The two script bodies served under the player routes.
#[derive(Clone)]
pub struct YouTube {
    /// The loader script, already patched to load the widget locally.
    pub iframe_api_script: String,
    /// The widget script fetched from its original location.
    pub widgetapi_script: String,
}

impl YouTube {
    pub fn new(iframe_api_script: String, widgetapi_script: String) -> (r: YouTube)
        ensures
            r.iframe_api_script@ == iframe_api_script@,
            r.widgetapi_script@ == widgetapi_script@,
    {
        YouTube { iframe_api_script, widgetapi_script }
    }
}

} // verus!
