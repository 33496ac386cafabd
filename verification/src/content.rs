//! How downloads are served: the content type for a file name, with every
//! type a browser could render as active content forced to
//! `application/octet-stream`, and a `Content-Disposition` that always asks for
//! a download.

use vstd::prelude::*;
use crate::paths::{path_file_name, path_extension, file_name, stem_and_extension};
use crate::seqs::chars_equal_str;
use crate::text::{ascii_lower, ascii_lower_char, chars_of, string_from_chars, spec_to_lowercase, to_lowercase};

verus! {

/// `str::to_ascii_lowercase`.
pub open spec fn ascii_lowercase(s: Seq<char>) -> Seq<char> {
    s.map_values(|c: char| ascii_lower(c))
}

/// The extensions that a browser may render as active content.
pub open spec fn is_dangerous_name(e: Seq<char>) -> bool {
    ||| e == "html"@ ||| e == "htm"@ ||| e == "svg"@ ||| e == "mht"@ ||| e == "mhtml"@
    ||| e == "xhtml"@ ||| e == "xht"@ ||| e == "js"@ ||| e == "mjs"@ ||| e == "jsx"@
    ||| e == "ts"@ ||| e == "tsx"@ ||| e == "xml"@ ||| e == "xsl"@ ||| e == "xslt"@
    ||| e == "rss"@ ||| e == "atom"@ ||| e == "pdf"@ ||| e == "swf"@ ||| e == "html5"@
}

/// An extension is dangerous when its ASCII-lowercased form is in the list.
pub open spec fn is_dangerous_spec(ext: Seq<char>) -> bool {
    is_dangerous_name(ascii_lowercase(ext))
}

fn ascii_lowercase_exec(s: &Vec<char>) -> (r: Vec<char>)
    ensures r@ == ascii_lowercase(s@),
{
    let mut r: Vec<char> = Vec::new();
    let n = s.len();
    let mut i: usize = 0;
    while i < n
        invariant
            n == s@.len(),
            i <= n,
            r@ == s@.take(i as int).map_values(|c: char| ascii_lower(c)),
        decreases n - i,
    {
        r.push(ascii_lower_char(s[i]));
        assert(s@.take(i + 1).map_values(|c: char| ascii_lower(c))
            =~= s@.take(i as int).map_values(|c: char| ascii_lower(c)).push(ascii_lower(s@[i as int])));
        i = i + 1;
    }
    assert(s@.take(n as int) =~= s@);
    r
}

fn is_dangerous_chars(e: &Vec<char>) -> (r: bool)
    ensures r == is_dangerous_name(e@),
{
    chars_equal_str(e, "html") || chars_equal_str(e, "htm") || chars_equal_str(e, "svg")
        || chars_equal_str(e, "mht") || chars_equal_str(e, "mhtml") || chars_equal_str(e, "xhtml")
        || chars_equal_str(e, "xht") || chars_equal_str(e, "js") || chars_equal_str(e, "mjs")
        || chars_equal_str(e, "jsx") || chars_equal_str(e, "ts") || chars_equal_str(e, "tsx")
        || chars_equal_str(e, "xml") || chars_equal_str(e, "xsl") || chars_equal_str(e, "xslt")
        || chars_equal_str(e, "rss") || chars_equal_str(e, "atom") || chars_equal_str(e, "pdf")
        || chars_equal_str(e, "swf") || chars_equal_str(e, "html5")
}

/// Whether files with the extension `ext` (without its dot, in any case) may
/// be rendered by a browser as active content.
pub fn is_dangerous_extension(ext: &str) -> (r: bool)
    ensures r == is_dangerous_spec(ext@),
{
    let v = chars_of(ext);
    is_dangerous_chars(&ascii_lowercase_exec(&v))
}

/// The content type of a safe, lowercased extension.
pub open spec fn type_for_extension(e: Seq<char>) -> Seq<char> {
    if e == "jpg"@ || e == "jpeg"@ { "image/jpeg"@ }
    else if e == "png"@ { "image/png"@ }
    else if e == "gif"@ { "image/gif"@ }
    else if e == "webp"@ { "image/webp"@ }
    else if e == "pdf"@ { "application/pdf"@ }
    else if e == "txt"@ { "text/plain; charset=utf-8"@ }
    else if e == "md"@ { "text/markdown; charset=utf-8"@ }
    else if e == "mp3"@ { "audio/mpeg"@ }
    else if e == "mp4"@ { "video/mp4"@ }
    else if e == "webm"@ { "video/webm"@ }
    else if e == "ogg"@ { "audio/ogg"@ }
    else if e == "wav"@ { "audio/wav"@ }
    else if e == "css"@ { "text/css"@ }
    else if e == "json"@ { "application/json"@ }
    else if e == "zip"@ { "application/zip"@ }
    else if e == "tar"@ { "application/x-tar"@ }
    else if e == "gz"@ { "application/gzip"@ }
    else { "application/octet-stream"@ }
}

/// The extension of a file name, lowercased, or empty.
pub open spec fn lower_extension(f: Seq<char>) -> Seq<char> {
    match path_extension(f) {
        Some(e) => spec_to_lowercase(e),
        None => Seq::empty(),
    }
}

/// The content type served for a file name.
pub open spec fn content_type_spec(f: Seq<char>) -> Seq<char> {
    let e = lower_extension(f);
    if is_dangerous_spec(e) { "application/octet-stream"@ } else { type_for_extension(e) }
}

/// The extension of a path (after the last dot of its final component), as
/// `Path::extension` finds it.
pub fn extension_of(s: &str) -> (r: Option<String>)
    ensures
        match r {
            Some(e) => path_extension(s@) == Some(e@),
            None => path_extension(s@) is None,
        },
{
    let v = chars_of(s);
    match file_name(&v) {
        Some(n) => {
            let (_stem, e) = stem_and_extension(&n);
            match e {
                Some(e) => Some(string_from_chars(&e)),
                None => None,
            }
        },
        None => None,
    }
}

fn type_for_chars(e: &Vec<char>) -> (r: &'static str)
    ensures r@ == type_for_extension(e@),
{
    if chars_equal_str(e, "jpg") || chars_equal_str(e, "jpeg") { "image/jpeg" }
    else if chars_equal_str(e, "png") { "image/png" }
    else if chars_equal_str(e, "gif") { "image/gif" }
    else if chars_equal_str(e, "webp") { "image/webp" }
    else if chars_equal_str(e, "pdf") { "application/pdf" }
    else if chars_equal_str(e, "txt") { "text/plain; charset=utf-8" }
    else if chars_equal_str(e, "md") { "text/markdown; charset=utf-8" }
    else if chars_equal_str(e, "mp3") { "audio/mpeg" }
    else if chars_equal_str(e, "mp4") { "video/mp4" }
    else if chars_equal_str(e, "webm") { "video/webm" }
    else if chars_equal_str(e, "ogg") { "audio/ogg" }
    else if chars_equal_str(e, "wav") { "audio/wav" }
    else if chars_equal_str(e, "css") { "text/css" }
    else if chars_equal_str(e, "json") { "application/json" }
    else if chars_equal_str(e, "zip") { "application/zip" }
    else if chars_equal_str(e, "tar") { "application/x-tar" }
    else if chars_equal_str(e, "gz") { "application/gzip" }
    else { "application/octet-stream" }
}

/// The content type to serve a file under; an extension that a browser could
/// render as active content always gets `application/octet-stream`.
pub fn get_content_type(filename: &str) -> (r: &'static str)
    ensures r@ == content_type_spec(filename@),
{
    let ext = match extension_of(filename) {
        Some(e) => to_lowercase(e.as_str()),
        None => String::new(),
    };
    if is_dangerous_extension(ext.as_str()) {
        return "application/octet-stream";
    }
    type_for_chars(&chars_of(ext.as_str()))
}

/// Dangerous extensions never get a type that a browser renders.
pub proof fn law_dangerous_types_download(f: Seq<char>)
    requires is_dangerous_spec(lower_extension(f)),
    ensures content_type_spec(f) == "application/octet-stream"@,
{
}

proof fn lemma_type_jpg(f: Seq<char>)
    requires lower_extension(f) == "jpg"@,
    ensures content_type_spec(f) == "image/jpeg"@,
{
    reveal_strlit("atom");
    reveal_strlit("htm");
    reveal_strlit("html");
    reveal_strlit("html5");
    reveal_strlit("image/jpeg");
    reveal_strlit("jpg");
    reveal_strlit("js");
    reveal_strlit("jsx");
    reveal_strlit("mht");
    reveal_strlit("mhtml");
    reveal_strlit("mjs");
    reveal_strlit("pdf");
    reveal_strlit("rss");
    reveal_strlit("svg");
    reveal_strlit("swf");
    reveal_strlit("ts");
    reveal_strlit("tsx");
    reveal_strlit("xht");
    reveal_strlit("xhtml");
    reveal_strlit("xml");
    reveal_strlit("xsl");
    reveal_strlit("xslt");
    assert(ascii_lowercase("jpg"@) =~= "jpg"@);
    assert("jpg"@.len() != "html"@.len());
    assert("jpg"@[0] != "htm"@[0]);
    assert("jpg"@[0] != "svg"@[0]);
    assert("jpg"@[0] != "mht"@[0]);
    assert("jpg"@.len() != "mhtml"@.len());
    assert("jpg"@.len() != "xhtml"@.len());
    assert("jpg"@[0] != "xht"@[0]);
    assert("jpg"@.len() != "js"@.len());
    assert("jpg"@[0] != "mjs"@[0]);
    assert("jpg"@[1] != "jsx"@[1]);
    assert("jpg"@.len() != "ts"@.len());
    assert("jpg"@[0] != "tsx"@[0]);
    assert("jpg"@[0] != "xml"@[0]);
    assert("jpg"@[0] != "xsl"@[0]);
    assert("jpg"@.len() != "xslt"@.len());
    assert("jpg"@[0] != "rss"@[0]);
    assert("jpg"@.len() != "atom"@.len());
    assert("jpg"@[0] != "pdf"@[0]);
    assert("jpg"@[0] != "swf"@[0]);
    assert("jpg"@.len() != "html5"@.len());
}

proof fn lemma_type_jpeg(f: Seq<char>)
    requires lower_extension(f) == "jpeg"@,
    ensures content_type_spec(f) == "image/jpeg"@,
{
    reveal_strlit("atom");
    reveal_strlit("htm");
    reveal_strlit("html");
    reveal_strlit("html5");
    reveal_strlit("image/jpeg");
    reveal_strlit("jpeg");
    reveal_strlit("jpg");
    reveal_strlit("js");
    reveal_strlit("jsx");
    reveal_strlit("mht");
    reveal_strlit("mhtml");
    reveal_strlit("mjs");
    reveal_strlit("pdf");
    reveal_strlit("rss");
    reveal_strlit("svg");
    reveal_strlit("swf");
    reveal_strlit("ts");
    reveal_strlit("tsx");
    reveal_strlit("xht");
    reveal_strlit("xhtml");
    reveal_strlit("xml");
    reveal_strlit("xsl");
    reveal_strlit("xslt");
    assert(ascii_lowercase("jpeg"@) =~= "jpeg"@);
    assert("jpeg"@[0] != "html"@[0]);
    assert("jpeg"@.len() != "htm"@.len());
    assert("jpeg"@.len() != "svg"@.len());
    assert("jpeg"@.len() != "mht"@.len());
    assert("jpeg"@.len() != "mhtml"@.len());
    assert("jpeg"@.len() != "xhtml"@.len());
    assert("jpeg"@.len() != "xht"@.len());
    assert("jpeg"@.len() != "js"@.len());
    assert("jpeg"@.len() != "mjs"@.len());
    assert("jpeg"@.len() != "jsx"@.len());
    assert("jpeg"@.len() != "ts"@.len());
    assert("jpeg"@.len() != "tsx"@.len());
    assert("jpeg"@.len() != "xml"@.len());
    assert("jpeg"@.len() != "xsl"@.len());
    assert("jpeg"@[0] != "xslt"@[0]);
    assert("jpeg"@.len() != "rss"@.len());
    assert("jpeg"@[0] != "atom"@[0]);
    assert("jpeg"@.len() != "pdf"@.len());
    assert("jpeg"@.len() != "swf"@.len());
    assert("jpeg"@.len() != "html5"@.len());
    assert("jpeg"@.len() != "jpg"@.len());
}

proof fn lemma_type_png(f: Seq<char>)
    requires lower_extension(f) == "png"@,
    ensures content_type_spec(f) == "image/png"@,
{
    reveal_strlit("atom");
    reveal_strlit("htm");
    reveal_strlit("html");
    reveal_strlit("html5");
    reveal_strlit("image/png");
    reveal_strlit("jpeg");
    reveal_strlit("jpg");
    reveal_strlit("js");
    reveal_strlit("jsx");
    reveal_strlit("mht");
    reveal_strlit("mhtml");
    reveal_strlit("mjs");
    reveal_strlit("pdf");
    reveal_strlit("png");
    reveal_strlit("rss");
    reveal_strlit("svg");
    reveal_strlit("swf");
    reveal_strlit("ts");
    reveal_strlit("tsx");
    reveal_strlit("xht");
    reveal_strlit("xhtml");
    reveal_strlit("xml");
    reveal_strlit("xsl");
    reveal_strlit("xslt");
    assert(ascii_lowercase("png"@) =~= "png"@);
    assert("png"@.len() != "html"@.len());
    assert("png"@[0] != "htm"@[0]);
    assert("png"@[0] != "svg"@[0]);
    assert("png"@[0] != "mht"@[0]);
    assert("png"@.len() != "mhtml"@.len());
    assert("png"@.len() != "xhtml"@.len());
    assert("png"@[0] != "xht"@[0]);
    assert("png"@.len() != "js"@.len());
    assert("png"@[0] != "mjs"@[0]);
    assert("png"@[0] != "jsx"@[0]);
    assert("png"@.len() != "ts"@.len());
    assert("png"@[0] != "tsx"@[0]);
    assert("png"@[0] != "xml"@[0]);
    assert("png"@[0] != "xsl"@[0]);
    assert("png"@.len() != "xslt"@.len());
    assert("png"@[0] != "rss"@[0]);
    assert("png"@.len() != "atom"@.len());
    assert("png"@[1] != "pdf"@[1]);
    assert("png"@[0] != "swf"@[0]);
    assert("png"@.len() != "html5"@.len());
    assert("png"@[0] != "jpg"@[0]);
    assert("png"@.len() != "jpeg"@.len());
}

proof fn lemma_type_gif(f: Seq<char>)
    requires lower_extension(f) == "gif"@,
    ensures content_type_spec(f) == "image/gif"@,
{
    reveal_strlit("atom");
    reveal_strlit("gif");
    reveal_strlit("htm");
    reveal_strlit("html");
    reveal_strlit("html5");
    reveal_strlit("image/gif");
    reveal_strlit("jpeg");
    reveal_strlit("jpg");
    reveal_strlit("js");
    reveal_strlit("jsx");
    reveal_strlit("mht");
    reveal_strlit("mhtml");
    reveal_strlit("mjs");
    reveal_strlit("pdf");
    reveal_strlit("png");
    reveal_strlit("rss");
    reveal_strlit("svg");
    reveal_strlit("swf");
    reveal_strlit("ts");
    reveal_strlit("tsx");
    reveal_strlit("xht");
    reveal_strlit("xhtml");
    reveal_strlit("xml");
    reveal_strlit("xsl");
    reveal_strlit("xslt");
    assert(ascii_lowercase("gif"@) =~= "gif"@);
    assert("gif"@.len() != "html"@.len());
    assert("gif"@[0] != "htm"@[0]);
    assert("gif"@[0] != "svg"@[0]);
    assert("gif"@[0] != "mht"@[0]);
    assert("gif"@.len() != "mhtml"@.len());
    assert("gif"@.len() != "xhtml"@.len());
    assert("gif"@[0] != "xht"@[0]);
    assert("gif"@.len() != "js"@.len());
    assert("gif"@[0] != "mjs"@[0]);
    assert("gif"@[0] != "jsx"@[0]);
    assert("gif"@.len() != "ts"@.len());
    assert("gif"@[0] != "tsx"@[0]);
    assert("gif"@[0] != "xml"@[0]);
    assert("gif"@[0] != "xsl"@[0]);
    assert("gif"@.len() != "xslt"@.len());
    assert("gif"@[0] != "rss"@[0]);
    assert("gif"@.len() != "atom"@.len());
    assert("gif"@[0] != "pdf"@[0]);
    assert("gif"@[0] != "swf"@[0]);
    assert("gif"@.len() != "html5"@.len());
    assert("gif"@[0] != "jpg"@[0]);
    assert("gif"@.len() != "jpeg"@.len());
    assert("gif"@[0] != "png"@[0]);
}

proof fn lemma_type_webp(f: Seq<char>)
    requires lower_extension(f) == "webp"@,
    ensures content_type_spec(f) == "image/webp"@,
{
    reveal_strlit("atom");
    reveal_strlit("gif");
    reveal_strlit("htm");
    reveal_strlit("html");
    reveal_strlit("html5");
    reveal_strlit("image/webp");
    reveal_strlit("jpeg");
    reveal_strlit("jpg");
    reveal_strlit("js");
    reveal_strlit("jsx");
    reveal_strlit("mht");
    reveal_strlit("mhtml");
    reveal_strlit("mjs");
    reveal_strlit("pdf");
    reveal_strlit("png");
    reveal_strlit("rss");
    reveal_strlit("svg");
    reveal_strlit("swf");
    reveal_strlit("ts");
    reveal_strlit("tsx");
    reveal_strlit("webp");
    reveal_strlit("xht");
    reveal_strlit("xhtml");
    reveal_strlit("xml");
    reveal_strlit("xsl");
    reveal_strlit("xslt");
    assert(ascii_lowercase("webp"@) =~= "webp"@);
    assert("webp"@[0] != "html"@[0]);
    assert("webp"@.len() != "htm"@.len());
    assert("webp"@.len() != "svg"@.len());
    assert("webp"@.len() != "mht"@.len());
    assert("webp"@.len() != "mhtml"@.len());
    assert("webp"@.len() != "xhtml"@.len());
    assert("webp"@.len() != "xht"@.len());
    assert("webp"@.len() != "js"@.len());
    assert("webp"@.len() != "mjs"@.len());
    assert("webp"@.len() != "jsx"@.len());
    assert("webp"@.len() != "ts"@.len());
    assert("webp"@.len() != "tsx"@.len());
    assert("webp"@.len() != "xml"@.len());
    assert("webp"@.len() != "xsl"@.len());
    assert("webp"@[0] != "xslt"@[0]);
    assert("webp"@.len() != "rss"@.len());
    assert("webp"@[0] != "atom"@[0]);
    assert("webp"@.len() != "pdf"@.len());
    assert("webp"@.len() != "swf"@.len());
    assert("webp"@.len() != "html5"@.len());
    assert("webp"@.len() != "jpg"@.len());
    assert("webp"@[0] != "jpeg"@[0]);
    assert("webp"@.len() != "png"@.len());
    assert("webp"@.len() != "gif"@.len());
}

proof fn lemma_type_txt(f: Seq<char>)
    requires lower_extension(f) == "txt"@,
    ensures content_type_spec(f) == "text/plain; charset=utf-8"@,
{
    reveal_strlit("atom");
    reveal_strlit("gif");
    reveal_strlit("htm");
    reveal_strlit("html");
    reveal_strlit("html5");
    reveal_strlit("jpeg");
    reveal_strlit("jpg");
    reveal_strlit("js");
    reveal_strlit("jsx");
    reveal_strlit("mht");
    reveal_strlit("mhtml");
    reveal_strlit("mjs");
    reveal_strlit("pdf");
    reveal_strlit("png");
    reveal_strlit("rss");
    reveal_strlit("svg");
    reveal_strlit("swf");
    reveal_strlit("text/plain; charset=utf-8");
    reveal_strlit("ts");
    reveal_strlit("tsx");
    reveal_strlit("txt");
    reveal_strlit("webp");
    reveal_strlit("xht");
    reveal_strlit("xhtml");
    reveal_strlit("xml");
    reveal_strlit("xsl");
    reveal_strlit("xslt");
    assert(ascii_lowercase("txt"@) =~= "txt"@);
    assert("txt"@.len() != "html"@.len());
    assert("txt"@[0] != "htm"@[0]);
    assert("txt"@[0] != "svg"@[0]);
    assert("txt"@[0] != "mht"@[0]);
    assert("txt"@.len() != "mhtml"@.len());
    assert("txt"@.len() != "xhtml"@.len());
    assert("txt"@[0] != "xht"@[0]);
    assert("txt"@.len() != "js"@.len());
    assert("txt"@[0] != "mjs"@[0]);
    assert("txt"@[0] != "jsx"@[0]);
    assert("txt"@.len() != "ts"@.len());
    assert("txt"@[1] != "tsx"@[1]);
    assert("txt"@[0] != "xml"@[0]);
    assert("txt"@[0] != "xsl"@[0]);
    assert("txt"@.len() != "xslt"@.len());
    assert("txt"@[0] != "rss"@[0]);
    assert("txt"@.len() != "atom"@.len());
    assert("txt"@[0] != "pdf"@[0]);
    assert("txt"@[0] != "swf"@[0]);
    assert("txt"@.len() != "html5"@.len());
    assert("txt"@[0] != "jpg"@[0]);
    assert("txt"@.len() != "jpeg"@.len());
    assert("txt"@[0] != "png"@[0]);
    assert("txt"@[0] != "gif"@[0]);
    assert("txt"@.len() != "webp"@.len());
}

proof fn lemma_type_md(f: Seq<char>)
    requires lower_extension(f) == "md"@,
    ensures content_type_spec(f) == "text/markdown; charset=utf-8"@,
{
    reveal_strlit("atom");
    reveal_strlit("gif");
    reveal_strlit("htm");
    reveal_strlit("html");
    reveal_strlit("html5");
    reveal_strlit("jpeg");
    reveal_strlit("jpg");
    reveal_strlit("js");
    reveal_strlit("jsx");
    reveal_strlit("md");
    reveal_strlit("mht");
    reveal_strlit("mhtml");
    reveal_strlit("mjs");
    reveal_strlit("pdf");
    reveal_strlit("png");
    reveal_strlit("rss");
    reveal_strlit("svg");
    reveal_strlit("swf");
    reveal_strlit("text/markdown; charset=utf-8");
    reveal_strlit("ts");
    reveal_strlit("tsx");
    reveal_strlit("txt");
    reveal_strlit("webp");
    reveal_strlit("xht");
    reveal_strlit("xhtml");
    reveal_strlit("xml");
    reveal_strlit("xsl");
    reveal_strlit("xslt");
    assert(ascii_lowercase("md"@) =~= "md"@);
    assert("md"@.len() != "html"@.len());
    assert("md"@.len() != "htm"@.len());
    assert("md"@.len() != "svg"@.len());
    assert("md"@.len() != "mht"@.len());
    assert("md"@.len() != "mhtml"@.len());
    assert("md"@.len() != "xhtml"@.len());
    assert("md"@.len() != "xht"@.len());
    assert("md"@[0] != "js"@[0]);
    assert("md"@.len() != "mjs"@.len());
    assert("md"@.len() != "jsx"@.len());
    assert("md"@[0] != "ts"@[0]);
    assert("md"@.len() != "tsx"@.len());
    assert("md"@.len() != "xml"@.len());
    assert("md"@.len() != "xsl"@.len());
    assert("md"@.len() != "xslt"@.len());
    assert("md"@.len() != "rss"@.len());
    assert("md"@.len() != "atom"@.len());
    assert("md"@.len() != "pdf"@.len());
    assert("md"@.len() != "swf"@.len());
    assert("md"@.len() != "html5"@.len());
    assert("md"@.len() != "jpg"@.len());
    assert("md"@.len() != "jpeg"@.len());
    assert("md"@.len() != "png"@.len());
    assert("md"@.len() != "gif"@.len());
    assert("md"@.len() != "webp"@.len());
    assert("md"@.len() != "txt"@.len());
}

proof fn lemma_type_mp3(f: Seq<char>)
    requires lower_extension(f) == "mp3"@,
    ensures content_type_spec(f) == "audio/mpeg"@,
{
    reveal_strlit("atom");
    reveal_strlit("audio/mpeg");
    reveal_strlit("gif");
    reveal_strlit("htm");
    reveal_strlit("html");
    reveal_strlit("html5");
    reveal_strlit("jpeg");
    reveal_strlit("jpg");
    reveal_strlit("js");
    reveal_strlit("jsx");
    reveal_strlit("md");
    reveal_strlit("mht");
    reveal_strlit("mhtml");
    reveal_strlit("mjs");
    reveal_strlit("mp3");
    reveal_strlit("pdf");
    reveal_strlit("png");
    reveal_strlit("rss");
    reveal_strlit("svg");
    reveal_strlit("swf");
    reveal_strlit("ts");
    reveal_strlit("tsx");
    reveal_strlit("txt");
    reveal_strlit("webp");
    reveal_strlit("xht");
    reveal_strlit("xhtml");
    reveal_strlit("xml");
    reveal_strlit("xsl");
    reveal_strlit("xslt");
    assert(ascii_lowercase("mp3"@) =~= "mp3"@);
    assert("mp3"@.len() != "html"@.len());
    assert("mp3"@[0] != "htm"@[0]);
    assert("mp3"@[0] != "svg"@[0]);
    assert("mp3"@[1] != "mht"@[1]);
    assert("mp3"@.len() != "mhtml"@.len());
    assert("mp3"@.len() != "xhtml"@.len());
    assert("mp3"@[0] != "xht"@[0]);
    assert("mp3"@.len() != "js"@.len());
    assert("mp3"@[1] != "mjs"@[1]);
    assert("mp3"@[0] != "jsx"@[0]);
    assert("mp3"@.len() != "ts"@.len());
    assert("mp3"@[0] != "tsx"@[0]);
    assert("mp3"@[0] != "xml"@[0]);
    assert("mp3"@[0] != "xsl"@[0]);
    assert("mp3"@.len() != "xslt"@.len());
    assert("mp3"@[0] != "rss"@[0]);
    assert("mp3"@.len() != "atom"@.len());
    assert("mp3"@[0] != "pdf"@[0]);
    assert("mp3"@[0] != "swf"@[0]);
    assert("mp3"@.len() != "html5"@.len());
    assert("mp3"@[0] != "jpg"@[0]);
    assert("mp3"@.len() != "jpeg"@.len());
    assert("mp3"@[0] != "png"@[0]);
    assert("mp3"@[0] != "gif"@[0]);
    assert("mp3"@.len() != "webp"@.len());
    assert("mp3"@[0] != "txt"@[0]);
    assert("mp3"@.len() != "md"@.len());
}

proof fn lemma_type_mp4(f: Seq<char>)
    requires lower_extension(f) == "mp4"@,
    ensures content_type_spec(f) == "video/mp4"@,
{
    reveal_strlit("atom");
    reveal_strlit("gif");
    reveal_strlit("htm");
    reveal_strlit("html");
    reveal_strlit("html5");
    reveal_strlit("jpeg");
    reveal_strlit("jpg");
    reveal_strlit("js");
    reveal_strlit("jsx");
    reveal_strlit("md");
    reveal_strlit("mht");
    reveal_strlit("mhtml");
    reveal_strlit("mjs");
    reveal_strlit("mp3");
    reveal_strlit("mp4");
    reveal_strlit("pdf");
    reveal_strlit("png");
    reveal_strlit("rss");
    reveal_strlit("svg");
    reveal_strlit("swf");
    reveal_strlit("ts");
    reveal_strlit("tsx");
    reveal_strlit("txt");
    reveal_strlit("video/mp4");
    reveal_strlit("webp");
    reveal_strlit("xht");
    reveal_strlit("xhtml");
    reveal_strlit("xml");
    reveal_strlit("xsl");
    reveal_strlit("xslt");
    assert(ascii_lowercase("mp4"@) =~= "mp4"@);
    assert("mp4"@.len() != "html"@.len());
    assert("mp4"@[0] != "htm"@[0]);
    assert("mp4"@[0] != "svg"@[0]);
    assert("mp4"@[1] != "mht"@[1]);
    assert("mp4"@.len() != "mhtml"@.len());
    assert("mp4"@.len() != "xhtml"@.len());
    assert("mp4"@[0] != "xht"@[0]);
    assert("mp4"@.len() != "js"@.len());
    assert("mp4"@[1] != "mjs"@[1]);
    assert("mp4"@[0] != "jsx"@[0]);
    assert("mp4"@.len() != "ts"@.len());
    assert("mp4"@[0] != "tsx"@[0]);
    assert("mp4"@[0] != "xml"@[0]);
    assert("mp4"@[0] != "xsl"@[0]);
    assert("mp4"@.len() != "xslt"@.len());
    assert("mp4"@[0] != "rss"@[0]);
    assert("mp4"@.len() != "atom"@.len());
    assert("mp4"@[0] != "pdf"@[0]);
    assert("mp4"@[0] != "swf"@[0]);
    assert("mp4"@.len() != "html5"@.len());
    assert("mp4"@[0] != "jpg"@[0]);
    assert("mp4"@.len() != "jpeg"@.len());
    assert("mp4"@[0] != "png"@[0]);
    assert("mp4"@[0] != "gif"@[0]);
    assert("mp4"@.len() != "webp"@.len());
    assert("mp4"@[0] != "txt"@[0]);
    assert("mp4"@.len() != "md"@.len());
    assert("mp4"@[2] != "mp3"@[2]);
}

proof fn lemma_type_webm(f: Seq<char>)
    requires lower_extension(f) == "webm"@,
    ensures content_type_spec(f) == "video/webm"@,
{
    reveal_strlit("atom");
    reveal_strlit("gif");
    reveal_strlit("htm");
    reveal_strlit("html");
    reveal_strlit("html5");
    reveal_strlit("jpeg");
    reveal_strlit("jpg");
    reveal_strlit("js");
    reveal_strlit("jsx");
    reveal_strlit("md");
    reveal_strlit("mht");
    reveal_strlit("mhtml");
    reveal_strlit("mjs");
    reveal_strlit("mp3");
    reveal_strlit("mp4");
    reveal_strlit("pdf");
    reveal_strlit("png");
    reveal_strlit("rss");
    reveal_strlit("svg");
    reveal_strlit("swf");
    reveal_strlit("ts");
    reveal_strlit("tsx");
    reveal_strlit("txt");
    reveal_strlit("video/webm");
    reveal_strlit("webm");
    reveal_strlit("webp");
    reveal_strlit("xht");
    reveal_strlit("xhtml");
    reveal_strlit("xml");
    reveal_strlit("xsl");
    reveal_strlit("xslt");
    assert(ascii_lowercase("webm"@) =~= "webm"@);
    assert("webm"@[0] != "html"@[0]);
    assert("webm"@.len() != "htm"@.len());
    assert("webm"@.len() != "svg"@.len());
    assert("webm"@.len() != "mht"@.len());
    assert("webm"@.len() != "mhtml"@.len());
    assert("webm"@.len() != "xhtml"@.len());
    assert("webm"@.len() != "xht"@.len());
    assert("webm"@.len() != "js"@.len());
    assert("webm"@.len() != "mjs"@.len());
    assert("webm"@.len() != "jsx"@.len());
    assert("webm"@.len() != "ts"@.len());
    assert("webm"@.len() != "tsx"@.len());
    assert("webm"@.len() != "xml"@.len());
    assert("webm"@.len() != "xsl"@.len());
    assert("webm"@[0] != "xslt"@[0]);
    assert("webm"@.len() != "rss"@.len());
    assert("webm"@[0] != "atom"@[0]);
    assert("webm"@.len() != "pdf"@.len());
    assert("webm"@.len() != "swf"@.len());
    assert("webm"@.len() != "html5"@.len());
    assert("webm"@.len() != "jpg"@.len());
    assert("webm"@[0] != "jpeg"@[0]);
    assert("webm"@.len() != "png"@.len());
    assert("webm"@.len() != "gif"@.len());
    assert("webm"@[3] != "webp"@[3]);
    assert("webm"@.len() != "txt"@.len());
    assert("webm"@.len() != "md"@.len());
    assert("webm"@.len() != "mp3"@.len());
    assert("webm"@.len() != "mp4"@.len());
}

proof fn lemma_type_ogg(f: Seq<char>)
    requires lower_extension(f) == "ogg"@,
    ensures content_type_spec(f) == "audio/ogg"@,
{
    reveal_strlit("atom");
    reveal_strlit("audio/ogg");
    reveal_strlit("gif");
    reveal_strlit("htm");
    reveal_strlit("html");
    reveal_strlit("html5");
    reveal_strlit("jpeg");
    reveal_strlit("jpg");
    reveal_strlit("js");
    reveal_strlit("jsx");
    reveal_strlit("md");
    reveal_strlit("mht");
    reveal_strlit("mhtml");
    reveal_strlit("mjs");
    reveal_strlit("mp3");
    reveal_strlit("mp4");
    reveal_strlit("ogg");
    reveal_strlit("pdf");
    reveal_strlit("png");
    reveal_strlit("rss");
    reveal_strlit("svg");
    reveal_strlit("swf");
    reveal_strlit("ts");
    reveal_strlit("tsx");
    reveal_strlit("txt");
    reveal_strlit("webm");
    reveal_strlit("webp");
    reveal_strlit("xht");
    reveal_strlit("xhtml");
    reveal_strlit("xml");
    reveal_strlit("xsl");
    reveal_strlit("xslt");
    assert(ascii_lowercase("ogg"@) =~= "ogg"@);
    assert("ogg"@.len() != "html"@.len());
    assert("ogg"@[0] != "htm"@[0]);
    assert("ogg"@[0] != "svg"@[0]);
    assert("ogg"@[0] != "mht"@[0]);
    assert("ogg"@.len() != "mhtml"@.len());
    assert("ogg"@.len() != "xhtml"@.len());
    assert("ogg"@[0] != "xht"@[0]);
    assert("ogg"@.len() != "js"@.len());
    assert("ogg"@[0] != "mjs"@[0]);
    assert("ogg"@[0] != "jsx"@[0]);
    assert("ogg"@.len() != "ts"@.len());
    assert("ogg"@[0] != "tsx"@[0]);
    assert("ogg"@[0] != "xml"@[0]);
    assert("ogg"@[0] != "xsl"@[0]);
    assert("ogg"@.len() != "xslt"@.len());
    assert("ogg"@[0] != "rss"@[0]);
    assert("ogg"@.len() != "atom"@.len());
    assert("ogg"@[0] != "pdf"@[0]);
    assert("ogg"@[0] != "swf"@[0]);
    assert("ogg"@.len() != "html5"@.len());
    assert("ogg"@[0] != "jpg"@[0]);
    assert("ogg"@.len() != "jpeg"@.len());
    assert("ogg"@[0] != "png"@[0]);
    assert("ogg"@[0] != "gif"@[0]);
    assert("ogg"@.len() != "webp"@.len());
    assert("ogg"@[0] != "txt"@[0]);
    assert("ogg"@.len() != "md"@.len());
    assert("ogg"@[0] != "mp3"@[0]);
    assert("ogg"@[0] != "mp4"@[0]);
    assert("ogg"@.len() != "webm"@.len());
}

proof fn lemma_type_wav(f: Seq<char>)
    requires lower_extension(f) == "wav"@,
    ensures content_type_spec(f) == "audio/wav"@,
{
    reveal_strlit("atom");
    reveal_strlit("audio/wav");
    reveal_strlit("gif");
    reveal_strlit("htm");
    reveal_strlit("html");
    reveal_strlit("html5");
    reveal_strlit("jpeg");
    reveal_strlit("jpg");
    reveal_strlit("js");
    reveal_strlit("jsx");
    reveal_strlit("md");
    reveal_strlit("mht");
    reveal_strlit("mhtml");
    reveal_strlit("mjs");
    reveal_strlit("mp3");
    reveal_strlit("mp4");
    reveal_strlit("ogg");
    reveal_strlit("pdf");
    reveal_strlit("png");
    reveal_strlit("rss");
    reveal_strlit("svg");
    reveal_strlit("swf");
    reveal_strlit("ts");
    reveal_strlit("tsx");
    reveal_strlit("txt");
    reveal_strlit("wav");
    reveal_strlit("webm");
    reveal_strlit("webp");
    reveal_strlit("xht");
    reveal_strlit("xhtml");
    reveal_strlit("xml");
    reveal_strlit("xsl");
    reveal_strlit("xslt");
    assert(ascii_lowercase("wav"@) =~= "wav"@);
    assert("wav"@.len() != "html"@.len());
    assert("wav"@[0] != "htm"@[0]);
    assert("wav"@[0] != "svg"@[0]);
    assert("wav"@[0] != "mht"@[0]);
    assert("wav"@.len() != "mhtml"@.len());
    assert("wav"@.len() != "xhtml"@.len());
    assert("wav"@[0] != "xht"@[0]);
    assert("wav"@.len() != "js"@.len());
    assert("wav"@[0] != "mjs"@[0]);
    assert("wav"@[0] != "jsx"@[0]);
    assert("wav"@.len() != "ts"@.len());
    assert("wav"@[0] != "tsx"@[0]);
    assert("wav"@[0] != "xml"@[0]);
    assert("wav"@[0] != "xsl"@[0]);
    assert("wav"@.len() != "xslt"@.len());
    assert("wav"@[0] != "rss"@[0]);
    assert("wav"@.len() != "atom"@.len());
    assert("wav"@[0] != "pdf"@[0]);
    assert("wav"@[0] != "swf"@[0]);
    assert("wav"@.len() != "html5"@.len());
    assert("wav"@[0] != "jpg"@[0]);
    assert("wav"@.len() != "jpeg"@.len());
    assert("wav"@[0] != "png"@[0]);
    assert("wav"@[0] != "gif"@[0]);
    assert("wav"@.len() != "webp"@.len());
    assert("wav"@[0] != "txt"@[0]);
    assert("wav"@.len() != "md"@.len());
    assert("wav"@[0] != "mp3"@[0]);
    assert("wav"@[0] != "mp4"@[0]);
    assert("wav"@.len() != "webm"@.len());
    assert("wav"@[0] != "ogg"@[0]);
}

proof fn lemma_type_css(f: Seq<char>)
    requires lower_extension(f) == "css"@,
    ensures content_type_spec(f) == "text/css"@,
{
    reveal_strlit("atom");
    reveal_strlit("css");
    reveal_strlit("gif");
    reveal_strlit("htm");
    reveal_strlit("html");
    reveal_strlit("html5");
    reveal_strlit("jpeg");
    reveal_strlit("jpg");
    reveal_strlit("js");
    reveal_strlit("jsx");
    reveal_strlit("md");
    reveal_strlit("mht");
    reveal_strlit("mhtml");
    reveal_strlit("mjs");
    reveal_strlit("mp3");
    reveal_strlit("mp4");
    reveal_strlit("ogg");
    reveal_strlit("pdf");
    reveal_strlit("png");
    reveal_strlit("rss");
    reveal_strlit("svg");
    reveal_strlit("swf");
    reveal_strlit("text/css");
    reveal_strlit("ts");
    reveal_strlit("tsx");
    reveal_strlit("txt");
    reveal_strlit("wav");
    reveal_strlit("webm");
    reveal_strlit("webp");
    reveal_strlit("xht");
    reveal_strlit("xhtml");
    reveal_strlit("xml");
    reveal_strlit("xsl");
    reveal_strlit("xslt");
    assert(ascii_lowercase("css"@) =~= "css"@);
    assert("css"@.len() != "html"@.len());
    assert("css"@[0] != "htm"@[0]);
    assert("css"@[0] != "svg"@[0]);
    assert("css"@[0] != "mht"@[0]);
    assert("css"@.len() != "mhtml"@.len());
    assert("css"@.len() != "xhtml"@.len());
    assert("css"@[0] != "xht"@[0]);
    assert("css"@.len() != "js"@.len());
    assert("css"@[0] != "mjs"@[0]);
    assert("css"@[0] != "jsx"@[0]);
    assert("css"@.len() != "ts"@.len());
    assert("css"@[0] != "tsx"@[0]);
    assert("css"@[0] != "xml"@[0]);
    assert("css"@[0] != "xsl"@[0]);
    assert("css"@.len() != "xslt"@.len());
    assert("css"@[0] != "rss"@[0]);
    assert("css"@.len() != "atom"@.len());
    assert("css"@[0] != "pdf"@[0]);
    assert("css"@[0] != "swf"@[0]);
    assert("css"@.len() != "html5"@.len());
    assert("css"@[0] != "jpg"@[0]);
    assert("css"@.len() != "jpeg"@.len());
    assert("css"@[0] != "png"@[0]);
    assert("css"@[0] != "gif"@[0]);
    assert("css"@.len() != "webp"@.len());
    assert("css"@[0] != "txt"@[0]);
    assert("css"@.len() != "md"@.len());
    assert("css"@[0] != "mp3"@[0]);
    assert("css"@[0] != "mp4"@[0]);
    assert("css"@.len() != "webm"@.len());
    assert("css"@[0] != "ogg"@[0]);
    assert("css"@[0] != "wav"@[0]);
}

proof fn lemma_type_json(f: Seq<char>)
    requires lower_extension(f) == "json"@,
    ensures content_type_spec(f) == "application/json"@,
{
    reveal_strlit("application/json");
    reveal_strlit("atom");
    reveal_strlit("css");
    reveal_strlit("gif");
    reveal_strlit("htm");
    reveal_strlit("html");
    reveal_strlit("html5");
    reveal_strlit("jpeg");
    reveal_strlit("jpg");
    reveal_strlit("js");
    reveal_strlit("json");
    reveal_strlit("jsx");
    reveal_strlit("md");
    reveal_strlit("mht");
    reveal_strlit("mhtml");
    reveal_strlit("mjs");
    reveal_strlit("mp3");
    reveal_strlit("mp4");
    reveal_strlit("ogg");
    reveal_strlit("pdf");
    reveal_strlit("png");
    reveal_strlit("rss");
    reveal_strlit("svg");
    reveal_strlit("swf");
    reveal_strlit("ts");
    reveal_strlit("tsx");
    reveal_strlit("txt");
    reveal_strlit("wav");
    reveal_strlit("webm");
    reveal_strlit("webp");
    reveal_strlit("xht");
    reveal_strlit("xhtml");
    reveal_strlit("xml");
    reveal_strlit("xsl");
    reveal_strlit("xslt");
    assert(ascii_lowercase("json"@) =~= "json"@);
    assert("json"@[0] != "html"@[0]);
    assert("json"@.len() != "htm"@.len());
    assert("json"@.len() != "svg"@.len());
    assert("json"@.len() != "mht"@.len());
    assert("json"@.len() != "mhtml"@.len());
    assert("json"@.len() != "xhtml"@.len());
    assert("json"@.len() != "xht"@.len());
    assert("json"@.len() != "js"@.len());
    assert("json"@.len() != "mjs"@.len());
    assert("json"@.len() != "jsx"@.len());
    assert("json"@.len() != "ts"@.len());
    assert("json"@.len() != "tsx"@.len());
    assert("json"@.len() != "xml"@.len());
    assert("json"@.len() != "xsl"@.len());
    assert("json"@[0] != "xslt"@[0]);
    assert("json"@.len() != "rss"@.len());
    assert("json"@[0] != "atom"@[0]);
    assert("json"@.len() != "pdf"@.len());
    assert("json"@.len() != "swf"@.len());
    assert("json"@.len() != "html5"@.len());
    assert("json"@.len() != "jpg"@.len());
    assert("json"@[1] != "jpeg"@[1]);
    assert("json"@.len() != "png"@.len());
    assert("json"@.len() != "gif"@.len());
    assert("json"@[0] != "webp"@[0]);
    assert("json"@.len() != "txt"@.len());
    assert("json"@.len() != "md"@.len());
    assert("json"@.len() != "mp3"@.len());
    assert("json"@.len() != "mp4"@.len());
    assert("json"@[0] != "webm"@[0]);
    assert("json"@.len() != "ogg"@.len());
    assert("json"@.len() != "wav"@.len());
    assert("json"@.len() != "css"@.len());
}

proof fn lemma_type_zip(f: Seq<char>)
    requires lower_extension(f) == "zip"@,
    ensures content_type_spec(f) == "application/zip"@,
{
    reveal_strlit("application/zip");
    reveal_strlit("atom");
    reveal_strlit("css");
    reveal_strlit("gif");
    reveal_strlit("htm");
    reveal_strlit("html");
    reveal_strlit("html5");
    reveal_strlit("jpeg");
    reveal_strlit("jpg");
    reveal_strlit("js");
    reveal_strlit("json");
    reveal_strlit("jsx");
    reveal_strlit("md");
    reveal_strlit("mht");
    reveal_strlit("mhtml");
    reveal_strlit("mjs");
    reveal_strlit("mp3");
    reveal_strlit("mp4");
    reveal_strlit("ogg");
    reveal_strlit("pdf");
    reveal_strlit("png");
    reveal_strlit("rss");
    reveal_strlit("svg");
    reveal_strlit("swf");
    reveal_strlit("ts");
    reveal_strlit("tsx");
    reveal_strlit("txt");
    reveal_strlit("wav");
    reveal_strlit("webm");
    reveal_strlit("webp");
    reveal_strlit("xht");
    reveal_strlit("xhtml");
    reveal_strlit("xml");
    reveal_strlit("xsl");
    reveal_strlit("xslt");
    reveal_strlit("zip");
    assert(ascii_lowercase("zip"@) =~= "zip"@);
    assert("zip"@.len() != "html"@.len());
    assert("zip"@[0] != "htm"@[0]);
    assert("zip"@[0] != "svg"@[0]);
    assert("zip"@[0] != "mht"@[0]);
    assert("zip"@.len() != "mhtml"@.len());
    assert("zip"@.len() != "xhtml"@.len());
    assert("zip"@[0] != "xht"@[0]);
    assert("zip"@.len() != "js"@.len());
    assert("zip"@[0] != "mjs"@[0]);
    assert("zip"@[0] != "jsx"@[0]);
    assert("zip"@.len() != "ts"@.len());
    assert("zip"@[0] != "tsx"@[0]);
    assert("zip"@[0] != "xml"@[0]);
    assert("zip"@[0] != "xsl"@[0]);
    assert("zip"@.len() != "xslt"@.len());
    assert("zip"@[0] != "rss"@[0]);
    assert("zip"@.len() != "atom"@.len());
    assert("zip"@[0] != "pdf"@[0]);
    assert("zip"@[0] != "swf"@[0]);
    assert("zip"@.len() != "html5"@.len());
    assert("zip"@[0] != "jpg"@[0]);
    assert("zip"@.len() != "jpeg"@.len());
    assert("zip"@[0] != "png"@[0]);
    assert("zip"@[0] != "gif"@[0]);
    assert("zip"@.len() != "webp"@.len());
    assert("zip"@[0] != "txt"@[0]);
    assert("zip"@.len() != "md"@.len());
    assert("zip"@[0] != "mp3"@[0]);
    assert("zip"@[0] != "mp4"@[0]);
    assert("zip"@.len() != "webm"@.len());
    assert("zip"@[0] != "ogg"@[0]);
    assert("zip"@[0] != "wav"@[0]);
    assert("zip"@[0] != "css"@[0]);
    assert("zip"@.len() != "json"@.len());
}

proof fn lemma_type_tar(f: Seq<char>)
    requires lower_extension(f) == "tar"@,
    ensures content_type_spec(f) == "application/x-tar"@,
{
    reveal_strlit("application/x-tar");
    reveal_strlit("atom");
    reveal_strlit("css");
    reveal_strlit("gif");
    reveal_strlit("htm");
    reveal_strlit("html");
    reveal_strlit("html5");
    reveal_strlit("jpeg");
    reveal_strlit("jpg");
    reveal_strlit("js");
    reveal_strlit("json");
    reveal_strlit("jsx");
    reveal_strlit("md");
    reveal_strlit("mht");
    reveal_strlit("mhtml");
    reveal_strlit("mjs");
    reveal_strlit("mp3");
    reveal_strlit("mp4");
    reveal_strlit("ogg");
    reveal_strlit("pdf");
    reveal_strlit("png");
    reveal_strlit("rss");
    reveal_strlit("svg");
    reveal_strlit("swf");
    reveal_strlit("tar");
    reveal_strlit("ts");
    reveal_strlit("tsx");
    reveal_strlit("txt");
    reveal_strlit("wav");
    reveal_strlit("webm");
    reveal_strlit("webp");
    reveal_strlit("xht");
    reveal_strlit("xhtml");
    reveal_strlit("xml");
    reveal_strlit("xsl");
    reveal_strlit("xslt");
    reveal_strlit("zip");
    assert(ascii_lowercase("tar"@) =~= "tar"@);
    assert("tar"@.len() != "html"@.len());
    assert("tar"@[0] != "htm"@[0]);
    assert("tar"@[0] != "svg"@[0]);
    assert("tar"@[0] != "mht"@[0]);
    assert("tar"@.len() != "mhtml"@.len());
    assert("tar"@.len() != "xhtml"@.len());
    assert("tar"@[0] != "xht"@[0]);
    assert("tar"@.len() != "js"@.len());
    assert("tar"@[0] != "mjs"@[0]);
    assert("tar"@[0] != "jsx"@[0]);
    assert("tar"@.len() != "ts"@.len());
    assert("tar"@[1] != "tsx"@[1]);
    assert("tar"@[0] != "xml"@[0]);
    assert("tar"@[0] != "xsl"@[0]);
    assert("tar"@.len() != "xslt"@.len());
    assert("tar"@[0] != "rss"@[0]);
    assert("tar"@.len() != "atom"@.len());
    assert("tar"@[0] != "pdf"@[0]);
    assert("tar"@[0] != "swf"@[0]);
    assert("tar"@.len() != "html5"@.len());
    assert("tar"@[0] != "jpg"@[0]);
    assert("tar"@.len() != "jpeg"@.len());
    assert("tar"@[0] != "png"@[0]);
    assert("tar"@[0] != "gif"@[0]);
    assert("tar"@.len() != "webp"@.len());
    assert("tar"@[1] != "txt"@[1]);
    assert("tar"@.len() != "md"@.len());
    assert("tar"@[0] != "mp3"@[0]);
    assert("tar"@[0] != "mp4"@[0]);
    assert("tar"@.len() != "webm"@.len());
    assert("tar"@[0] != "ogg"@[0]);
    assert("tar"@[0] != "wav"@[0]);
    assert("tar"@[0] != "css"@[0]);
    assert("tar"@.len() != "json"@.len());
    assert("tar"@[0] != "zip"@[0]);
}

proof fn lemma_type_gz(f: Seq<char>)
    requires lower_extension(f) == "gz"@,
    ensures content_type_spec(f) == "application/gzip"@,
{
    reveal_strlit("application/gzip");
    reveal_strlit("atom");
    reveal_strlit("css");
    reveal_strlit("gif");
    reveal_strlit("gz");
    reveal_strlit("htm");
    reveal_strlit("html");
    reveal_strlit("html5");
    reveal_strlit("jpeg");
    reveal_strlit("jpg");
    reveal_strlit("js");
    reveal_strlit("json");
    reveal_strlit("jsx");
    reveal_strlit("md");
    reveal_strlit("mht");
    reveal_strlit("mhtml");
    reveal_strlit("mjs");
    reveal_strlit("mp3");
    reveal_strlit("mp4");
    reveal_strlit("ogg");
    reveal_strlit("pdf");
    reveal_strlit("png");
    reveal_strlit("rss");
    reveal_strlit("svg");
    reveal_strlit("swf");
    reveal_strlit("tar");
    reveal_strlit("ts");
    reveal_strlit("tsx");
    reveal_strlit("txt");
    reveal_strlit("wav");
    reveal_strlit("webm");
    reveal_strlit("webp");
    reveal_strlit("xht");
    reveal_strlit("xhtml");
    reveal_strlit("xml");
    reveal_strlit("xsl");
    reveal_strlit("xslt");
    reveal_strlit("zip");
    assert(ascii_lowercase("gz"@) =~= "gz"@);
    assert("gz"@.len() != "html"@.len());
    assert("gz"@.len() != "htm"@.len());
    assert("gz"@.len() != "svg"@.len());
    assert("gz"@.len() != "mht"@.len());
    assert("gz"@.len() != "mhtml"@.len());
    assert("gz"@.len() != "xhtml"@.len());
    assert("gz"@.len() != "xht"@.len());
    assert("gz"@[0] != "js"@[0]);
    assert("gz"@.len() != "mjs"@.len());
    assert("gz"@.len() != "jsx"@.len());
    assert("gz"@[0] != "ts"@[0]);
    assert("gz"@.len() != "tsx"@.len());
    assert("gz"@.len() != "xml"@.len());
    assert("gz"@.len() != "xsl"@.len());
    assert("gz"@.len() != "xslt"@.len());
    assert("gz"@.len() != "rss"@.len());
    assert("gz"@.len() != "atom"@.len());
    assert("gz"@.len() != "pdf"@.len());
    assert("gz"@.len() != "swf"@.len());
    assert("gz"@.len() != "html5"@.len());
    assert("gz"@.len() != "jpg"@.len());
    assert("gz"@.len() != "jpeg"@.len());
    assert("gz"@.len() != "png"@.len());
    assert("gz"@.len() != "gif"@.len());
    assert("gz"@.len() != "webp"@.len());
    assert("gz"@.len() != "txt"@.len());
    assert("gz"@[0] != "md"@[0]);
    assert("gz"@.len() != "mp3"@.len());
    assert("gz"@.len() != "mp4"@.len());
    assert("gz"@.len() != "webm"@.len());
    assert("gz"@.len() != "ogg"@.len());
    assert("gz"@.len() != "wav"@.len());
    assert("gz"@.len() != "css"@.len());
    assert("gz"@.len() != "json"@.len());
    assert("gz"@.len() != "zip"@.len());
    assert("gz"@.len() != "tar"@.len());
}

/// The content type served for each safe extension, in any case of the
/// extension: images, text, audio, video and archives get their MIME type,
/// and a PDF is only ever downloaded.
pub proof fn law_content_type_table(f: Seq<char>)
    ensures
        lower_extension(f) == "jpg"@ ==> content_type_spec(f) == "image/jpeg"@,
        lower_extension(f) == "jpeg"@ ==> content_type_spec(f) == "image/jpeg"@,
        lower_extension(f) == "png"@ ==> content_type_spec(f) == "image/png"@,
        lower_extension(f) == "gif"@ ==> content_type_spec(f) == "image/gif"@,
        lower_extension(f) == "webp"@ ==> content_type_spec(f) == "image/webp"@,
        lower_extension(f) == "txt"@ ==> content_type_spec(f) == "text/plain; charset=utf-8"@,
        lower_extension(f) == "md"@ ==> content_type_spec(f) == "text/markdown; charset=utf-8"@,
        lower_extension(f) == "mp3"@ ==> content_type_spec(f) == "audio/mpeg"@,
        lower_extension(f) == "mp4"@ ==> content_type_spec(f) == "video/mp4"@,
        lower_extension(f) == "webm"@ ==> content_type_spec(f) == "video/webm"@,
        lower_extension(f) == "ogg"@ ==> content_type_spec(f) == "audio/ogg"@,
        lower_extension(f) == "wav"@ ==> content_type_spec(f) == "audio/wav"@,
        lower_extension(f) == "css"@ ==> content_type_spec(f) == "text/css"@,
        lower_extension(f) == "json"@ ==> content_type_spec(f) == "application/json"@,
        lower_extension(f) == "zip"@ ==> content_type_spec(f) == "application/zip"@,
        lower_extension(f) == "tar"@ ==> content_type_spec(f) == "application/x-tar"@,
        lower_extension(f) == "gz"@ ==> content_type_spec(f) == "application/gzip"@,
        lower_extension(f) == "pdf"@ ==> content_type_spec(f) == "application/octet-stream"@,
{
    if lower_extension(f) == "jpg"@ { lemma_type_jpg(f); }
    if lower_extension(f) == "jpeg"@ { lemma_type_jpeg(f); }
    if lower_extension(f) == "png"@ { lemma_type_png(f); }
    if lower_extension(f) == "gif"@ { lemma_type_gif(f); }
    if lower_extension(f) == "webp"@ { lemma_type_webp(f); }
    if lower_extension(f) == "txt"@ { lemma_type_txt(f); }
    if lower_extension(f) == "md"@ { lemma_type_md(f); }
    if lower_extension(f) == "mp3"@ { lemma_type_mp3(f); }
    if lower_extension(f) == "mp4"@ { lemma_type_mp4(f); }
    if lower_extension(f) == "webm"@ { lemma_type_webm(f); }
    if lower_extension(f) == "ogg"@ { lemma_type_ogg(f); }
    if lower_extension(f) == "wav"@ { lemma_type_wav(f); }
    if lower_extension(f) == "css"@ { lemma_type_css(f); }
    if lower_extension(f) == "json"@ { lemma_type_json(f); }
    if lower_extension(f) == "zip"@ { lemma_type_zip(f); }
    if lower_extension(f) == "tar"@ { lemma_type_tar(f); }
    if lower_extension(f) == "gz"@ { lemma_type_gz(f); }
    if lower_extension(f) == "pdf"@ {
        reveal_strlit("pdf");
        assert(ascii_lowercase("pdf"@) =~= "pdf"@);
    }
}

/// `c` is printable ASCII, a space up to a tilde.
pub open spec fn is_printable(c: char) -> bool {
    ' ' <= c && c <= '~'
}

/// `c` is an ASCII control character.
pub open spec fn is_ascii_control(c: char) -> bool {
    (c as u32) < 32 || (c as u32) == 127
}

/// A file name's character after sanitizing for a header: controls, quotes and
/// backslashes become `_`.
pub open spec fn header_char(c: char) -> char {
    if is_ascii_control(c) || c == '"' || c == '\\' { '_' } else { c }
}

/// A character of the plain-ASCII fallback name: anything not printable
/// becomes `_`.
pub open spec fn fallback_char(c: char) -> char {
    if is_printable(c) { c } else { '_' }
}

/// The byte is an ASCII letter or digit, which percent-encoding keeps.
pub open spec fn is_alnum_byte(b: u8) -> bool {
    (48 <= b && b <= 57) || (65 <= b && b <= 90) || (97 <= b && b <= 122)
}

/// An uppercase hexadecimal digit.
pub open spec fn upper_hex_digit(d: nat) -> char {
    if d < 10 { ((d + 48) as u32) as char } else { ((d + 55) as u32) as char }
}

/// One byte, percent-encoded against `NON_ALPHANUMERIC`.
pub open spec fn percent_byte(b: u8) -> Seq<char> {
    if is_alnum_byte(b) {
        seq![(b as u32) as char]
    } else {
        seq!['%', upper_hex_digit((b / 16) as nat), upper_hex_digit((b % 16) as nat)]
    }
}

/// Bytes, percent-encoded against `NON_ALPHANUMERIC`.
pub open spec fn percent_bytes(bytes: Seq<u8>) -> Seq<char>
    decreases bytes.len(),
{
    if bytes.len() == 0 { Seq::empty() } else { percent_bytes(bytes.drop_last()) + percent_byte(bytes.last()) }
}

/// `percent_encoding::utf8_percent_encode(s, NON_ALPHANUMERIC).to_string()`.
/// Its source keeps the bytes outside the set and writes every other byte of
/// the UTF-8 encoding as `%` and two uppercase hexadecimal digits; the set
/// holds every byte but ASCII letters and digits.
#[verifier::external_body]
fn percent_encode_non_alnum(s: &str) -> (r: String)
    ensures r@ == percent_bytes(vstd::utf8::encode_utf8(s@)),
{
    percent_encoding::utf8_percent_encode(s, percent_encoding::NON_ALPHANUMERIC).to_string()
}

/// The name that a download is offered under: the final component of the path,
/// or the whole text when it has none.
pub open spec fn download_basename(f: Seq<char>) -> Seq<char> {
    match path_file_name(f) {
        Some(n) => n,
        None => f,
    }
}

/// The `Content-Disposition` header for a download of `f`. It always says
/// `attachment`; a name that is not printable ASCII also gets an RFC 5987
/// `filename*` with its UTF-8 bytes percent-encoded.
pub open spec fn content_disposition_spec(f: Seq<char>) -> Seq<char> {
    let s = download_basename(f).map_values(|c: char| header_char(c));
    if forall|i: int| 0 <= i < s.len() ==> is_printable(#[trigger] s[i]) {
        "attachment; filename=\""@ + s + "\""@
    } else {
        "attachment; filename=\""@ + s.map_values(|c: char| fallback_char(c)) + "\"; filename*=UTF-8''"@
            + percent_bytes(vstd::utf8::encode_utf8(s))
    }
}

/// The `Content-Disposition` header that forces a download of `filename`.
pub fn create_safe_content_disposition(filename: &str) -> (r: String)
    ensures r@ == content_disposition_spec(filename@),
{
    let v = chars_of(filename);
    let base = match file_name(&v) {
        Some(n) => n,
        None => v,
    };
    let ghost b = download_basename(filename@);
    assert(base@ == b);
    let mut s: Vec<char> = Vec::new();
    let mut fallback: Vec<char> = Vec::new();
    let mut printable = true;
    let n = base.len();
    let mut i: usize = 0;
    while i < n
        invariant
            n == b.len(),
            base@ == b,
            i <= n,
            s@ == b.take(i as int).map_values(|c: char| header_char(c)),
            fallback@ == s@.map_values(|c: char| fallback_char(c)),
            printable == forall|k: int| 0 <= k < i ==> is_printable(#[trigger] s@[k]),
        decreases n - i,
    {
        let c = base[i];
        let h = if (c as u32) < 32 || (c as u32) == 127 || c == '"' || c == '\\' { '_' } else { c };
        let f = if ' ' <= h && h <= '~' { h } else { '_' };
        if !(' ' <= h && h <= '~') {
            printable = false;
        }
        let ghost old_s = s@;
        s.push(h);
        fallback.push(f);
        assert(s@ == old_s.push(h));
        assert(printable == forall|k: int| 0 <= k < i + 1 ==> is_printable(#[trigger] s@[k])) by {
            assert forall|k: int| 0 <= k < i implies s@[k] == old_s[k] by {}
            if !printable {
                if !is_printable(h) {
                    assert(!is_printable(s@[i as int]));
                } else {
                    let k0 = choose|k: int| 0 <= k < i && !is_printable(#[trigger] old_s[k]);
                    assert(!is_printable(s@[k0]));
                }
            }
        }
        assert(b.take(i + 1).map_values(|c: char| header_char(c))
            =~= b.take(i as int).map_values(|c: char| header_char(c)).push(header_char(b[i as int])));
        assert(fallback@ =~= s@.map_values(|c: char| fallback_char(c)));
        i = i + 1;
    }
    assert(b.take(n as int) =~= b);
    let mut out = String::from_str("attachment; filename=\"");
    if printable {
        let name = string_from_chars(&s);
        out.append(name.as_str());
        out.append("\"");
        out
    } else {
        let name = string_from_chars(&fallback);
        out.append(name.as_str());
        out.append("\"; filename*=UTF-8''");
        let sanitized = string_from_chars(&s);
        let enc = percent_encode_non_alnum(sanitized.as_str());
        out.append(enc.as_str());
        out
    }
}

/// The disposition always asks for a download.
pub proof fn law_disposition_is_attachment(f: Seq<char>)
    ensures content_disposition_spec(f).subrange(0, 11) == "attachment;"@,
{
    reveal_strlit("attachment; filename=\"");
    reveal_strlit("attachment;");
    let s = download_basename(f).map_values(|c: char| header_char(c));
    if forall|i: int| 0 <= i < s.len() ==> is_printable(#[trigger] s[i]) {
        assert(content_disposition_spec(f).subrange(0, 11) =~= "attachment;"@);
    } else {
        assert(content_disposition_spec(f).subrange(0, 11) =~= "attachment;"@);
    }
}

/// The quoted name in the disposition never holds a quote, a backslash or a
/// control character, so it cannot break out of its quotes.
pub proof fn law_disposition_name_is_clean(f: Seq<char>, i: int)
    requires 0 <= i < download_basename(f).len(),
    ensures ({
        let c = header_char(download_basename(f)[i]);
        c != '"' && c != '\\' && !is_ascii_control(c)
    }),
{
}

} // verus!
