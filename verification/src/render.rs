//! Filling text templates: the HTML shell of the web client and the text of
//! upload notifications.

use vstd::prelude::*;
use crate::text::{chars_of, string_from_chars, decimal, u64_to_decimal};
use crate::seqs::push_chars;

verus! {

/// `str::replace`: every occurrence of `pat`, scanning left to right without
/// overlaps, replaced by `rep`.
pub open spec fn replace_all(s: Seq<char>, pat: Seq<char>, rep: Seq<char>) -> Seq<char>
    recommends pat.len() > 0,
    decreases s.len(),
{
    if pat.len() == 0 || s.len() < pat.len() {
        s
    } else if s.subrange(0, pat.len() as int) == pat {
        rep + replace_all(s.skip(pat.len() as int), pat, rep)
    } else {
        seq![s[0]] + replace_all(s.skip(1), pat, rep)
    }
}

fn matches_at(s: &Vec<char>, i: usize, pat: &Vec<char>) -> (r: bool)
    requires i + pat@.len() <= s@.len(),
    ensures r == (s@.subrange(i as int, i + pat@.len()) == pat@),
{
    let sl = s.len();
    let mut k: usize = 0;
    while k < pat.len()
        invariant
            sl == s@.len(),
            i + pat@.len() <= s@.len(),
            k <= pat@.len(),
            forall|j: int| 0 <= j < k ==> s@[i + j] == pat@[j],
        decreases pat@.len() - k,
    {
        if s[i + k] != pat[k] {
            assert(s@.subrange(i as int, i + pat@.len())[k as int] != pat@[k as int]);
            return false;
        }
        k = k + 1;
    }
    assert(s@.subrange(i as int, i + pat@.len()) =~= pat@);
    true
}

/// Replaces every occurrence of a non-empty `pat` in `s` by `rep`.
pub fn replace_str(s: &str, pat: &str, rep: &str) -> (r: String)
    requires pat@.len() > 0,
    ensures r@ == replace_all(s@, pat@, rep@),
{
    let v = chars_of(s);
    let p = chars_of(pat);
    let w = chars_of(rep);
    let n = v.len();
    let m = p.len();
    let mut out: Vec<char> = Vec::new();
    let mut i: usize = 0;
    assert(v@.skip(0) =~= v@);
    while i < n
        invariant
            v@ == s@,
            p@ == pat@,
            w@ == rep@,
            n == v@.len(),
            m == p@.len(),
            m > 0,
            i <= n,
            out@ + replace_all(v@.skip(i as int), p@, w@) == replace_all(s@, pat@, rep@),
        decreases n - i,
    {
        let ghost rest = v@.skip(i as int);
        if m <= n - i && matches_at(&v, i, &p) {
            assert(rest.subrange(0, m as int) =~= v@.subrange(i as int, i + m));
            assert(rest.skip(m as int) =~= v@.skip(i + m));
            let ghost before = out@;
            push_chars(&mut out, &w);
            assert(before + replace_all(rest, p@, w@) =~= out@ + replace_all(v@.skip(i + m), p@, w@));
            i = i + m;
        } else {
            if m <= n - i {
                assert(rest.subrange(0, m as int) =~= v@.subrange(i as int, i + m));
            }
            assert(rest.skip(1) =~= v@.skip(i + 1));
            let ghost before = out@;
            out.push(v[i]);
            assert(before + replace_all(rest, p@, w@) =~= out@ + replace_all(v@.skip(i + 1), p@, w@));
            i = i + 1;
        }
    }
    assert(v@.skip(n as int) =~= Seq::<char>::empty());
    assert(out@ + Seq::<char>::empty() =~= out@);
    string_from_chars(&out)
}

/// `true` or `false`, as `bool::to_string` writes it.
pub open spec fn bool_text(b: bool) -> Seq<char> {
    if b { "true"@ } else { "false"@ }
}

/// The base URL with exactly one trailing slash added when it has none.
pub open spec fn base_with_slash(base_url: Seq<char>) -> Seq<char> {
    if base_url.len() > 0 && base_url.last() == '/' { base_url } else { base_url.push('/') }
}

/// The HTML shell with the site title and base URL filled in, and, for the
/// index page, the client settings.
pub open spec fn page_spec(template: Seq<char>, site_title: Seq<char>, base_url: Seq<char>, auto_upload: bool, max_retries: u32, show_file_list: bool, is_index: bool) -> Seq<char> {
    let a = replace_all(replace_all(template, "{{SITE_TITLE}}"@, site_title), "{{BASE_URL}}"@, base_with_slash(base_url));
    if is_index {
        replace_all(replace_all(replace_all(a, "{{AUTO_UPLOAD}}"@, bool_text(auto_upload)),
            "{{MAX_RETRIES}}"@, decimal(max_retries as nat)), "{{SHOW_FILE_LIST}}"@, bool_text(show_file_list))
    } else {
        a
    }
}

/// A rendered page and whether the answer must forbid caching.
pub struct RenderedPage {
    pub html: String,
    pub no_store: bool,
}

/// Fills the HTML shell for `req_path`: the title and base URL always, the
/// client settings on `index.html`; `login.html` is answered uncached.
pub fn render_page(template: &str, site_title: &str, base_url: &str, auto_upload: bool, max_retries: u32, show_file_list: bool, req_path: &str) -> (r: RenderedPage)
    ensures
        r.html@ == page_spec(template@, site_title@, base_url@, auto_upload, max_retries, show_file_list, req_path@ == "index.html"@),
        r.no_store == (req_path@ == "login.html"@),
{
    proof {
        reveal_strlit("{{SITE_TITLE}}");
        reveal_strlit("{{BASE_URL}}");
        reveal_strlit("{{AUTO_UPLOAD}}");
        reveal_strlit("{{MAX_RETRIES}}");
        reveal_strlit("{{SHOW_FILE_LIST}}");
    }
    let b = chars_of(base_url);
    let mut base = b.clone();
    if !(b.len() > 0 && b[b.len() - 1] == '/') {
        base.push('/');
    }
    assert(base@ =~= base_with_slash(base_url@));
    let base_s = string_from_chars(&base);
    let t1 = replace_str(template, "{{SITE_TITLE}}", site_title);
    let mut html = replace_str(t1.as_str(), "{{BASE_URL}}", base_s.as_str());
    let rp = chars_of(req_path);
    if crate::seqs::chars_equal_str(&rp, "index.html") {
        let au = if auto_upload { "true" } else { "false" };
        let sf = if show_file_list { "true" } else { "false" };
        let mr = u64_to_decimal(max_retries as u64);
        let h1 = replace_str(html.as_str(), "{{AUTO_UPLOAD}}", au);
        let h2 = replace_str(h1.as_str(), "{{MAX_RETRIES}}", mr.as_str());
        html = replace_str(h2.as_str(), "{{SHOW_FILE_LIST}}", sf);
    }
    let no_store = crate::seqs::chars_equal_str(&rp, "login.html");
    RenderedPage { html, no_store }
}

/// The text of an upload notification: the template with `{filename}`,
/// `{size}` and `{storage}` filled in, in that order.
pub open spec fn notification_spec(template: Seq<char>, filename: Seq<char>, size: Seq<char>, storage: Seq<char>) -> Seq<char> {
    replace_all(replace_all(replace_all(template, "{filename}"@, filename), "{size}"@, size), "{storage}"@, storage)
}

/// Fills an upload notification template.
pub fn notification_message(template: &str, filename: &str, size: &str, storage: &str) -> (r: String)
    ensures r@ == notification_spec(template@, filename@, size@, storage@),
{
    proof {
        reveal_strlit("{filename}");
        reveal_strlit("{size}");
        reveal_strlit("{storage}");
    }
    let a = replace_str(template, "{filename}", filename);
    let b = replace_str(a.as_str(), "{size}", size);
    replace_str(b.as_str(), "{storage}", storage)
}

/// A template without the placeholder is left as it is.
pub proof fn law_replace_without_match(s: Seq<char>, pat: Seq<char>, rep: Seq<char>)
    requires
        pat.len() > 0,
        forall|i: int| 0 <= i <= s.len() - pat.len() ==> #[trigger] s.subrange(i, i + pat.len()) != pat,
    ensures replace_all(s, pat, rep) == s,
    decreases s.len(),
{
    if s.len() >= pat.len() {
        let z: int = 0;
        assert(s.subrange(z, z + pat.len()) != pat);
        let t = s.skip(1);
        assert forall|i: int| 0 <= i <= t.len() - pat.len() implies #[trigger] t.subrange(i, i + pat.len()) != pat by {
            assert(t.subrange(i, i + pat.len()) =~= s.subrange(i + 1, i + 1 + pat.len()));
        }
        law_replace_without_match(t, pat, rep);
        assert(s =~= seq![s[0]] + t);
    }
}

} // verus!
