//! The pages and scripts of the browser interface.
use crate::http::{bytes_response, entity_fields, html_fields, html_response, HttpResponse};
use crate::query::{same_text, Entries};
use vstd::prelude::*;
use vstd::utf8::encode_utf8;

verus! {

/// A file of the browser interface.
#[derive(Clone, Copy, Debug, PartialEq, Eq, Structural)]
pub enum WebAsset {
    Favicon,
    AppCss,
    AppJs,
    ApiJs,
    CoreJs,
    LibraryJs,
    PlayerJs,
    PreferencesJs,
    StoreJs,
}

impl WebAsset {
    /// The path of the file.
    pub open spec fn path(self) -> Seq<char> {
        match self {
            WebAsset::Favicon => "/favicon.ico"@,
            WebAsset::AppCss => "/web/app.css"@,
            WebAsset::AppJs => "/web/app.js"@,
            WebAsset::ApiJs => "/web/api.js"@,
            WebAsset::CoreJs => "/web/core.js"@,
            WebAsset::LibraryJs => "/web/library.js"@,
            WebAsset::PlayerJs => "/web/player.js"@,
            WebAsset::PreferencesJs => "/web/preferences.js"@,
            WebAsset::StoreJs => "/web/store.js"@,
        }
    }

    /// The media type of the file.
    pub open spec fn mime(self) -> Seq<char> {
        match self {
            WebAsset::Favicon => "image/png"@,
            WebAsset::AppCss => "text/css; charset=utf-8"@,
            _ => "text/javascript; charset=utf-8"@,
        }
    }

    /// How long a browser may keep the file.
    pub open spec fn cache_control(self) -> Seq<char> {
        match self {
            WebAsset::Favicon => "public, max-age=86400"@,
            _ => "no-cache"@,
        }
    }
}

/// The file at a path.
pub open spec fn asset_of(path: Seq<char>) -> Option<WebAsset> {
    if path == WebAsset::Favicon.path() {
        Some(WebAsset::Favicon)
    } else if path == WebAsset::AppCss.path() {
        Some(WebAsset::AppCss)
    } else if path == WebAsset::AppJs.path() {
        Some(WebAsset::AppJs)
    } else if path == WebAsset::ApiJs.path() {
        Some(WebAsset::ApiJs)
    } else if path == WebAsset::CoreJs.path() {
        Some(WebAsset::CoreJs)
    } else if path == WebAsset::LibraryJs.path() {
        Some(WebAsset::LibraryJs)
    } else if path == WebAsset::PlayerJs.path() {
        Some(WebAsset::PlayerJs)
    } else if path == WebAsset::PreferencesJs.path() {
        Some(WebAsset::PreferencesJs)
    } else if path == WebAsset::StoreJs.path() {
        Some(WebAsset::StoreJs)
    } else {
        None
    }
}

/// The file at a path.
pub fn asset_at(path: &str) -> (asset: Option<WebAsset>)
    ensures
        asset == asset_of(path@),
{
    if same_text(path, "/favicon.ico") {
        Some(WebAsset::Favicon)
    } else if same_text(path, "/web/app.css") {
        Some(WebAsset::AppCss)
    } else if same_text(path, "/web/app.js") {
        Some(WebAsset::AppJs)
    } else if same_text(path, "/web/api.js") {
        Some(WebAsset::ApiJs)
    } else if same_text(path, "/web/core.js") {
        Some(WebAsset::CoreJs)
    } else if same_text(path, "/web/library.js") {
        Some(WebAsset::LibraryJs)
    } else if same_text(path, "/web/player.js") {
        Some(WebAsset::PlayerJs)
    } else if same_text(path, "/web/preferences.js") {
        Some(WebAsset::PreferencesJs)
    } else if same_text(path, "/web/store.js") {
        Some(WebAsset::StoreJs)
    } else {
        None
    }
}

/// The answer with a file.
pub fn asset_response(asset: WebAsset, body: &[u8]) -> (response: HttpResponse)
    ensures
        response.status == 200,
        response.reason@ == "OK"@,
        response.fields() == entity_fields(asset.mime(), asset.cache_control(), body@.len()),
        response.body@ == body@,
{
    match asset {
        WebAsset::Favicon => bytes_response("image/png", body, "public, max-age=86400"),
        WebAsset::AppCss => bytes_response("text/css; charset=utf-8", body, "no-cache"),
        _ => bytes_response("text/javascript; charset=utf-8", body, "no-cache"),
    }
}

/// What a page of the interface may load, and from where.
pub open spec fn page_policy() -> Seq<char> {
    "default-src 'self'; img-src 'self' data:; media-src 'self' blob:; script-src 'self'; style-src 'self'; object-src 'none'; base-uri 'none'; frame-ancestors 'none'"@
}

/// The headers of the interface's page.
pub open spec fn presentation_fields(length: nat) -> Entries {
    html_fields(length).push(("Content-Security-Policy"@, page_policy())).push(
        ("Referrer-Policy"@, "no-referrer"@),
    )
}

/// The answer with the interface's page.
pub fn presentation(page: String) -> (response: HttpResponse)
    ensures
        response.status == 200,
        response.reason@ == "OK"@,
        response.fields() == presentation_fields(encode_utf8(page@).len()),
        response.body@ == encode_utf8(page@),
{
    let mut response = html_response(page);
    response.push(
        "Content-Security-Policy",
        "default-src 'self'; img-src 'self' data:; media-src 'self' blob:; script-src 'self'; style-src 'self'; object-src 'none'; base-uri 'none'; frame-ancestors 'none'",
    );
    response.push("Referrer-Policy", "no-referrer");
    response
}

/// The answer at the root: the interface's page, or the status page where the
/// interface is switched off.
pub fn root_response(enabled: bool, page: String, status_page: String) -> (response: HttpResponse)
    ensures
        response.status == 200,
        response.reason@ == "OK"@,
        enabled ==> response.body@ == encode_utf8(page@) && response.fields()
            == presentation_fields(encode_utf8(page@).len()),
        !enabled ==> response.body@ == encode_utf8(status_page@) && response.fields()
            == html_fields(encode_utf8(status_page@).len()),
{
    if enabled {
        presentation(page)
    } else {
        html_response(status_page)
    }
}

} // verus!
