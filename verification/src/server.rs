//! What the development server decides without touching the network or
//! the clock: the content type of a served file, and when a change in the
//! watched sources triggers a rebuild.
use vstd::prelude::*;

verus! {

/// The content type served for a file extension.
pub open spec fn mime_type_for(extension: Option<Seq<char>>) -> Seq<char> {
    match extension {
        Some(e) => if e == "html"@ {
            "text/html; charset=utf-8"@
        } else if e == "css"@ {
            "text/css; charset=utf-8"@
        } else if e == "js"@ {
            "application/javascript"@
        } else if e == "json"@ {
            "application/json"@
        } else if e == "svg"@ {
            "image/svg+xml"@
        } else if e == "png"@ {
            "image/png"@
        } else if e == "jpg"@ || e == "jpeg"@ {
            "image/jpeg"@
        } else if e == "ico"@ {
            "image/x-icon"@
        } else if e == "woff2"@ {
            "font/woff2"@
        } else {
            "application/octet-stream"@
        },
        None => "application/octet-stream"@,
    }
}

/// The content type for a file with this extension (without the dot, as
/// `Path::extension` gives it); unknown or missing extensions are served as
/// `application/octet-stream`.
pub fn mime_for(extension: Option<&str>) -> (res: String)
    ensures
        res@ == mime_type_for(match extension { Some(e) => Some(e@), None => None }),
{
    match extension {
        Some(e) => {
            if *e == *"html" {
                "text/html; charset=utf-8".to_string()
            } else if *e == *"css" {
                "text/css; charset=utf-8".to_string()
            } else if *e == *"js" {
                "application/javascript".to_string()
            } else if *e == *"json" {
                "application/json".to_string()
            } else if *e == *"svg" {
                "image/svg+xml".to_string()
            } else if *e == *"png" {
                "image/png".to_string()
            } else if *e == *"jpg" || *e == *"jpeg" {
                "image/jpeg".to_string()
            } else if *e == *"ico" {
                "image/x-icon".to_string()
            } else if *e == *"woff2" {
                "font/woff2".to_string()
            } else {
                "application/octet-stream".to_string()
            }
        },
        None => "application/octet-stream".to_string(),
    }
}

/// How long after the last rebuild further changes are ignored, in
/// milliseconds.
pub open spec fn debounce_ms() -> int {
    300
}

/// What the source watcher reports to the rebuild loop.
pub enum WatchEvent {
    /// A change was seen, this many milliseconds after watching started.
    Changed(u64),
    /// The watcher reported an error.
    WatchFailed,
    /// The watcher is gone.
    Closed,
    /// A rebuild finished, this many milliseconds after watching started.
    Rebuilt(u64),
}

/// What the rebuild loop does next.
pub enum WatchAction {
    /// Rebuild the site, then report `Rebuilt` and notify the server.
    Rebuild,
    /// Print the watcher's error and go on.
    ReportError,
    /// Leave the loop.
    Stop,
    /// Wait for the next event.
    Wait,
}

/// One step of the rebuild loop. The state is when the last rebuild
/// finished (watching start counts as one), in milliseconds since watching
/// started. A change rebuilds only when at least 300 ms have passed since
/// then; a finished rebuild becomes the new state; a watcher error is
/// reported; a closed watcher ends the loop.
pub fn watch_step(last_rebuild_ms: u64, event: WatchEvent) -> (res: (u64, WatchAction))
    ensures
        match event {
            WatchEvent::Changed(now) => if now >= last_rebuild_ms + debounce_ms() {
                res == (last_rebuild_ms, WatchAction::Rebuild)
            } else {
                res == (last_rebuild_ms, WatchAction::Wait)
            },
            WatchEvent::WatchFailed => res == (last_rebuild_ms, WatchAction::ReportError),
            WatchEvent::Closed => res == (last_rebuild_ms, WatchAction::Stop),
            WatchEvent::Rebuilt(done) => res == (done, WatchAction::Wait),
        },
{
    match event {
        WatchEvent::Changed(now) => {
            if now >= last_rebuild_ms && now - last_rebuild_ms >= 300 {
                (last_rebuild_ms, WatchAction::Rebuild)
            } else {
                (last_rebuild_ms, WatchAction::Wait)
            }
        },
        WatchEvent::WatchFailed => (last_rebuild_ms, WatchAction::ReportError),
        WatchEvent::Closed => (last_rebuild_ms, WatchAction::Stop),
        WatchEvent::Rebuilt(done) => (done, WatchAction::Wait),
    }
}

} // verus!
