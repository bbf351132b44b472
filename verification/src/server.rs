//! The development server's decision logic: hot-module-replacement message
//! shapes, the HMR client injected into served pages, content types, and the
//! rebuild trigger a file change produces.
//!
//! The HTTP and WebSocket plumbing around these decisions is a front-end
//! concern and stands outside this crate.

use vstd::prelude::*;

verus! {

use vstd::string::StringExecFns;
use crate::config::Config;
use crate::graph::{chars_eq_lit, extension_of, find_last, last_index_of, slice_chars};
use crate::strutil::{chars_to_string, push_str_chars, str_to_chars};
use crate::transform::prefix_at;

/// HMR message types.
#[derive(Debug, Clone)]
pub enum HmrMessage {
    /// Connection established.
    Connected,
    /// Full page reload required.
    FullReload {
        /// Why the page must reload.
        reason: String,
    },
    /// CSS file updated (can be hot-reloaded).
    CssUpdate {
        /// The changed stylesheet's path.
        path: String,
    },
    /// JavaScript module updated.
    JsUpdate {
        /// The changed module's path.
        path: String,
        /// Whether the module accepted the update.
        accepted: Option<bool>,
    },
    /// Error during compilation.
    Error {
        /// What went wrong.
        message: String,
        /// The file it arose in.
        file: Option<String>,
        /// Line position.
        line: Option<u32>,
        /// Column position.
        column: Option<u32>,
    },
}

/// The content type served for a file extension.
pub open spec fn content_type_spec(ext: Seq<char>) -> Seq<char> {
    if ext == "html"@ || ext == "htm"@ {
        "text/html; charset=utf-8"@
    } else if ext == "js"@ || ext == "mjs"@ {
        "application/javascript; charset=utf-8"@
    } else if ext == "ts"@ || ext == "tsx"@ || ext == "jsx"@ {
        "application/javascript; charset=utf-8"@
    } else if ext == "css"@ {
        "text/css; charset=utf-8"@
    } else if ext == "json"@ {
        "application/json; charset=utf-8"@
    } else if ext == "png"@ {
        "image/png"@
    } else if ext == "jpg"@ || ext == "jpeg"@ {
        "image/jpeg"@
    } else if ext == "gif"@ {
        "image/gif"@
    } else if ext == "svg"@ {
        "image/svg+xml"@
    } else if ext == "woff"@ {
        "font/woff"@
    } else if ext == "woff2"@ {
        "font/woff2"@
    } else if ext == "ttf"@ {
        "font/ttf"@
    } else if ext == "eot"@ {
        "application/vnd.ms-fontobject"@
    } else {
        "application/octet-stream"@
    }
}

fn extension_chars(path: &str) -> (r: Vec<char>)
    ensures
        r@ == extension_of(path@),
{
    let v = str_to_chars(path);
    let name_start: usize = match find_last(&v, '/') {
        Some(i) => i + 1,
        None => 0,
    };
    proof {
        assert(name_start as int == last_index_of(v@, '/') + 1);
    }
    let name = slice_chars(&v, name_start, v.len());
    match find_last(&name, '.') {
        None => Vec::new(),
        Some(d) => {
            if d == 0 {
                Vec::new()
            } else {
                slice_chars(&name, d + 1, name.len())
            }
        },
    }
}

/// Get the content type served for a file, by its extension.
pub fn get_content_type(path: &str) -> (r: &'static str)
    ensures
        r@ == content_type_spec(extension_of(path@)),
{
    let ext = extension_chars(path);
    if chars_eq_lit(&ext, "html") || chars_eq_lit(&ext, "htm") {
        "text/html; charset=utf-8"
    } else if chars_eq_lit(&ext, "js") || chars_eq_lit(&ext, "mjs") {
        "application/javascript; charset=utf-8"
    } else if chars_eq_lit(&ext, "ts") || chars_eq_lit(&ext, "tsx") || chars_eq_lit(&ext, "jsx") {
        "application/javascript; charset=utf-8"
    } else if chars_eq_lit(&ext, "css") {
        "text/css; charset=utf-8"
    } else if chars_eq_lit(&ext, "json") {
        "application/json; charset=utf-8"
    } else if chars_eq_lit(&ext, "png") {
        "image/png"
    } else if chars_eq_lit(&ext, "jpg") || chars_eq_lit(&ext, "jpeg") {
        "image/jpeg"
    } else if chars_eq_lit(&ext, "gif") {
        "image/gif"
    } else if chars_eq_lit(&ext, "svg") {
        "image/svg+xml"
    } else if chars_eq_lit(&ext, "woff") {
        "font/woff"
    } else if chars_eq_lit(&ext, "woff2") {
        "font/woff2"
    } else if chars_eq_lit(&ext, "ttf") {
        "font/ttf"
    } else if chars_eq_lit(&ext, "eot") {
        "application/vnd.ms-fontobject"
    } else {
        "application/octet-stream"
    }
}

/// The HMR client script injected into served pages.
pub open spec fn hmr_client_script() -> Seq<char> {
    "\n<script type=\"module\">\n// Component HMR Client\n(function() {\n  const ws = new WebSocket(`ws://${location.host}/__component_hmr`);\n  \n  ws.onmessage = function(event) {\n    const message = JSON.parse(event.data);\n    \n    switch (message.type) {\n      case 'full-reload':\n        console.log('[Component] Full reload:', message.reason);\n        location.reload();\n        break;\n        \n      case 'css-update':\n        console.log('[Component] CSS update:', message.path);\n        // Find and reload CSS\n        const links = document.querySelectorAll('link[rel=\"stylesheet\"]');\n        links.forEach(link => {\n          const url = new URL(link.href);\n          url.searchParams.set('t', Date.now());\n          link.href = url.toString();\n        });\n        break;\n        \n      case 'connected':\n        console.log('[Component] HMR connected');\n        break;\n    }\n  };\n  \n  ws.onclose = function() {\n    console.log('[Component] HMR disconnected, attempting to reconnect...');\n    setTimeout(() => location.reload(), 1000);\n  };\n})();\n</script>\n"@
}

/// The last position where `pat` starts in `s`, searching from `from`
/// leftwards; -1 when it does not occur there.
pub open spec fn last_occurrence(s: Seq<char>, pat: Seq<char>, from: int) -> int
    decreases from + 1,
{
    if from < 0 {
        -1
    } else if from + pat.len() <= s.len() && s.subrange(from, from + pat.len()) == pat {
        from
    } else {
        last_occurrence(s, pat, from - 1)
    }
}

fn rfind_pat(s: &Vec<char>, pat: &str) -> (r: Option<usize>)
    ensures
        match r {
            Some(i) => last_occurrence(s@, pat@, s@.len() as int) == i as int && i <= s.len(),
            None => last_occurrence(s@, pat@, s@.len() as int) == -1,
        },
{
    let mut i: usize = s.len();
    loop
        invariant
            i <= s.len(),
            last_occurrence(s@, pat@, s@.len() as int) == last_occurrence(s@, pat@, i as int),
        decreases i,
    {
        if prefix_at(s, i, pat) {
            return Some(i);
        }
        if i == 0 {
            proof {
                assert(last_occurrence(s@, pat@, -1) == -1);
            }
            return None;
        }
        i = i - 1;
    }
}

/// What `inject_hmr_client` returns: the HMR client script inserted before
/// the last closing body tag, or appended when there is none.
pub open spec fn inject_hmr_spec(html: Seq<char>) -> Seq<char> {
    let p = last_occurrence(html, "</body>"@, html.len() as int);
    if p >= 0 {
        html.take(p) + hmr_client_script() + html.subrange(p, html.len() as int)
    } else {
        html + hmr_client_script()
    }
}

/// Inject the HMR client script into an HTML page, before the last closing
/// body tag when there is one.
pub fn inject_hmr_client(html: &str) -> (r: String)
    ensures
        r@ == inject_hmr_spec(html@),
{
    let v = str_to_chars(html);
    let mut out: Vec<char> = Vec::new();
    match rfind_pat(&v, "</body>") {
        Some(p) => {
            let head = slice_chars(&v, 0, p);
            let tail = slice_chars(&v, p, v.len());
            crate::strutil::push_chars(&mut out, &head);
            push_script(&mut out);
            crate::strutil::push_chars(&mut out, &tail);
            assert(out@ =~= inject_hmr_spec(html@));
        },
        None => {
            crate::strutil::push_chars(&mut out, &v);
            push_script(&mut out);
            assert(out@ =~= inject_hmr_spec(html@));
        },
    }
    chars_to_string(&out)
}

fn push_script(out: &mut Vec<char>)
    ensures
        final(out)@ == old(out)@ + hmr_client_script(),
{
    push_str_chars(
        out,
        "\n<script type=\"module\">\n// Component HMR Client\n(function() {\n  const ws = new WebSocket(`ws://${location.host}/__component_hmr`);\n  \n  ws.onmessage = function(event) {\n    const message = JSON.parse(event.data);\n    \n    switch (message.type) {\n      case 'full-reload':\n        console.log('[Component] Full reload:', message.reason);\n        location.reload();\n        break;\n        \n      case 'css-update':\n        console.log('[Component] CSS update:', message.path);\n        // Find and reload CSS\n        const links = document.querySelectorAll('link[rel=\"stylesheet\"]');\n        links.forEach(link => {\n          const url = new URL(link.href);\n          url.searchParams.set('t', Date.now());\n          link.href = url.toString();\n        });\n        break;\n        \n      case 'connected':\n        console.log('[Component] HMR connected');\n        break;\n    }\n  };\n  \n  ws.onclose = function() {\n    console.log('[Component] HMR disconnected, attempting to reconnect...');\n    setTimeout(() => location.reload(), 1000);\n  };\n})();\n</script>\n",
    );
}

/// What `generate_default_index` serves when a project has no page of its
/// own: a minimal page loading the first configured entrypoint, with the
/// HMR client appended when hot reloading is on.
pub open spec fn default_index_spec(cfg: Config, hmr_enabled: bool) -> Seq<char> {
    let entrypoint = if cfg.entrypoints@.len() > 0 {
        cfg.entrypoints@[0].1@
    } else {
        "src/main.js"@
    };
    let hmr = if hmr_enabled {
        inject_hmr_spec(""@)
    } else {
        Seq::<char>::empty()
    };
    "<!DOCTYPE html>\n<html lang=\"en\">\n  <head>\n    <meta charset=\"UTF-8\" />\n    <meta name=\"viewport\" content=\"width=device-width, initial-scale=1.0\" />\n    <title>"@
        + cfg.project.name@
        + "</title>\n  </head>\n  <body>\n    <div id=\"app\"></div>\n    <script type=\"module\" src=\"/"@
        + entrypoint + "\"></script>\n    "@ + hmr + "\n  </body>\n</html>\n"@
}

/// Generate a default page for a project that serves none of its own.
pub fn generate_default_index(config: &Config, hmr_enabled: bool) -> (r: String)
    ensures
        r@ == default_index_spec(*config, hmr_enabled),
{
    let mut out: Vec<char> = Vec::new();
    push_str_chars(
        &mut out,
        "<!DOCTYPE html>\n<html lang=\"en\">\n  <head>\n    <meta charset=\"UTF-8\" />\n    <meta name=\"viewport\" content=\"width=device-width, initial-scale=1.0\" />\n    <title>",
    );
    push_str_chars(&mut out, config.project.name.as_str());
    push_str_chars(
        &mut out,
        "</title>\n  </head>\n  <body>\n    <div id=\"app\"></div>\n    <script type=\"module\" src=\"/",
    );
    if config.entrypoints.len() > 0 {
        push_str_chars(&mut out, config.entrypoints[0].1.as_str());
    } else {
        push_str_chars(&mut out, "src/main.js");
    }
    push_str_chars(&mut out, "\"></script>\n    ");
    if hmr_enabled {
        let hmr = inject_hmr_client("");
        push_str_chars(&mut out, hmr.as_str());
    }
    push_str_chars(&mut out, "\n  </body>\n</html>\n");
    assert(out@ =~= default_index_spec(*config, hmr_enabled));
    chars_to_string(&out)
}

/// The file extensions whose change triggers a rebuild notification.
pub open spec fn relevant_change_ext(ext: Seq<char>) -> bool {
    ||| ext == "js"@
    ||| ext == "ts"@
    ||| ext == "jsx"@
    ||| ext == "tsx"@
    ||| ext == "css"@
    ||| ext == "scss"@
    ||| ext == "html"@
    ||| ext == "vue"@
    ||| ext == "svelte"@
}

/// The HMR message a changed file produces: nothing for an irrelevant
/// extension, a CSS hot update for stylesheets, a full reload otherwise.
pub fn file_change_message(path: &str) -> (r: Option<HmrMessage>)
    ensures
        match r {
            None => !relevant_change_ext(extension_of(path@)),
            Some(m) => relevant_change_ext(extension_of(path@)) && (if extension_of(path@)
                == "css"@ || extension_of(path@) == "scss"@ {
                m matches HmrMessage::CssUpdate { path: p } && p@ == path@
            } else {
                m matches HmrMessage::FullReload { reason } && reason@ == "File changed: "@
                    + path@
            }),
        },
{
    let ext = extension_chars(path);
    let relevant = chars_eq_lit(&ext, "js") || chars_eq_lit(&ext, "ts") || chars_eq_lit(
        &ext,
        "jsx",
    ) || chars_eq_lit(&ext, "tsx") || chars_eq_lit(&ext, "css") || chars_eq_lit(&ext, "scss")
        || chars_eq_lit(&ext, "html") || chars_eq_lit(&ext, "vue") || chars_eq_lit(&ext, "svelte");
    if !relevant {
        return None;
    }
    if chars_eq_lit(&ext, "css") || chars_eq_lit(&ext, "scss") {
        let mut p = String::new();
        p.append(path);
        Some(HmrMessage::CssUpdate { path: p })
    } else {
        let mut reason = String::new();
        reason.append("File changed: ");
        reason.append(path);
        Some(HmrMessage::FullReload { reason })
    }
}

} // verus!
