//! The fetch tool: URL checks, the robots.txt decision, content
//! extraction and pagination, the result text, and its rendering.

use vstd::prelude::*;
use vstd::string::*;
use vstd::utf8::*;
use crate::text::{
    decimal, lines, pad_right_spec, push_decimal, push_pad_right, push_repeat, repeat_spec, trim,
    trim_spec, trim_start_matches_spec,
};
use crate::tools::header::{
    concat_rows, find_value, first_value, framed, header_content, header_fields, header_offset_ok,
    header_text, law_header_read_back, lemma_concat_rows_step, lemma_header_text_append, pair_views, parse_header,
    single_line, str_equal, writable_field,
};

verus! {

/// Input for fetching web content.
#[derive(Debug)]
pub struct FetchInput {
    /// URL to fetch.
    pub url: String,
    /// Maximum content length in characters.
    pub max_length: Option<usize>,
    /// Starting character index for pagination.
    pub start_index: Option<usize>,
    /// Return raw HTML instead of Markdown.
    pub raw: bool,
    /// Fetch even if robots.txt disallows.
    pub force: bool,
    /// User agent sent with the requests.
    pub user_agent: String,
    /// Request timeout in seconds.
    pub timeout_seconds: u64,
}

/// The page length when none is given: 5000.
pub fn default_max_length() -> (r: Option<usize>)
    ensures
        r == Some(5000usize),
{
    Some(5000)
}

/// The user agent when none is given.
pub fn default_user_agent() -> (s: String)
    ensures
        s@ == "mixtape-bot/1.0 (+https://github.com/your-repo/mixtape)"@,
{
    "mixtape-bot/1.0 (+https://github.com/your-repo/mixtape)".to_string()
}

/// The request timeout in seconds when none is given: 30.
pub fn default_timeout() -> (r: u64)
    ensures
        r == 30,
{
    30
}

/// What `url::Url::parse` makes of a text: its scheme, host and
/// serialization, or the message of its error.
pub uninterp spec fn url_parse(text: Seq<char>) -> Result<(Seq<char>, Option<Seq<char>>, Seq<char>), Seq<char>>;

/// Whether a robots.txt text allows `agent` to fetch `url`
/// (`robotstxt::DefaultMatcher::one_agent_allowed_by_robots`).
pub uninterp spec fn robots_allow(robots: Seq<char>, agent: Seq<char>, url: Seq<char>) -> bool;

/// The Markdown that `html2md::parse_html` makes of an HTML text.
pub uninterp spec fn markdown_of(html: Seq<char>) -> Seq<char>;

/// The view of an optional string.
pub open spec fn opt_string_view(o: Option<String>) -> Option<Seq<char>> {
    match o {
        Some(s) => Some(s@),
        None => None,
    }
}

/// `url::Url::parse`, with the scheme, host and serialization of the
/// result or the message of the error.
#[verifier::external_body]
pub(crate) fn parse_url(text: &str) -> (r: Result<(String, Option<String>, String), String>)
    ensures
        match r {
            Ok(t) => url_parse(text@) == Ok::<(Seq<char>, Option<Seq<char>>, Seq<char>), Seq<char>>((t.0@, opt_string_view(t.1), t.2@)),
            Err(e) => url_parse(text@) == Err::<(Seq<char>, Option<Seq<char>>, Seq<char>), Seq<char>>(e@),
        },
{
    match url::Url::parse(text) {
        Ok(u) => Ok((u.scheme().to_string(), u.host_str().map(|h| h.to_string()), u.as_str().to_string())),
        Err(e) => Err(e.to_string()),
    }
}

/// The number of UTF-8 bytes of a character.
pub open spec fn utf8_len(c: char) -> nat {
    if (c as u32) < 0x80 {
        1
    } else if (c as u32) < 0x800 {
        2
    } else if (c as u32) < 0x10000 {
        3
    } else {
        4
    }
}

/// The robots.txt parser keeps a line while fewer than 16663 of its bytes
/// are kept and skips the rest, counting what it skips in characters.
pub open spec fn robots_line_limit() -> nat {
    16663
}

/// Scanning a robots.txt text: `len` bytes of the current line kept so
/// far; each character the parser skips is ASCII, so that its count of
/// skipped characters is a count of bytes.
pub open spec fn robots_scan(t: Seq<char>, len: nat) -> bool
    decreases t.len(),
{
    if t.len() == 0 {
        true
    } else if t[0] == '\n' || t[0] == '\r' {
        robots_scan(t.drop_first(), 0)
    } else if len < robots_line_limit() {
        robots_scan(t.drop_first(), len + utf8_len(t[0]))
    } else {
        (t[0] as u32) < 0x80 && robots_scan(t.drop_first(), len)
    }
}

/// A robots.txt text that the parser reads without fault: no character
/// past the first 16663 bytes of its line is non-ASCII.
pub open spec fn robots_text_ok(t: Seq<char>) -> bool {
    robots_scan(t, 0)
}

/// Whether the robots.txt parser reads `t` without fault.
pub fn robots_text_fits(t: &str) -> (b: bool)
    ensures
        b == robots_text_ok(t@),
{
    let cs = crate::text::chars_of(t);
    let mut i: usize = 0;
    let mut len: usize = 0;
    assert(t@.skip(0) =~= t@);
    while i < cs.len()
        invariant
            cs@ == t@,
            i <= cs@.len(),
            len <= robots_line_limit() + 4,
            robots_scan(t@.skip(i as int), len as nat) == robots_text_ok(t@),
        decreases cs@.len() - i,
    {
        assert(t@.skip(i as int).drop_first() =~= t@.skip(i + 1));
        assert(t@.skip(i as int)[0] == cs@[i as int]);
        let c = cs[i];
        let u = c as u32;
        if c == '\n' || c == '\r' {
            len = 0;
        } else if len < 16663 {
            let w: usize = if u < 0x80 {
                1
            } else if u < 0x800 {
                2
            } else if u < 0x10000 {
                3
            } else {
                4
            };
            len = len + w;
        } else if u >= 0x80 {
            return false;
        }
        i = i + 1;
    }
    assert(t@.skip(i as int) =~= Seq::<char>::empty());
    true
}

/// `robotstxt::DefaultMatcher::one_agent_allowed_by_robots`. It is a
/// function of its arguments; it returns on every text whose skipped line
/// tails are ASCII (parser.rs adds a count of skipped characters to a
/// byte offset, which is off only where a skipped character is wider
/// than a byte).
#[verifier::external_body]
fn robots_allows(robots: &str, agent: &str, url: &str) -> (b: bool)
    requires
        robots_text_ok(robots@),
    ensures
        b == robots_allow(robots@, agent@, url@),
{
    let mut matcher = robotstxt::DefaultMatcher::default();
    matcher.one_agent_allowed_by_robots(robots, agent, url)
}

/// Whether an HTML text holds a list item start tag: `<` then `l` and `i`
/// in either case.
pub open spec fn has_list_item_tag(h: Seq<char>) -> bool {
    exists|i: int|
        0 <= i && i + 3 <= h.len() && #[trigger] h[i] == '<' && (h[i + 1] == 'l' || h[i + 1] == 'L') && (h[i + 2]
            == 'i' || h[i + 2] == 'I')
}

/// Whether an HTML text holds a list item start tag.
pub fn has_list_items(html: &str) -> (b: bool)
    ensures
        b == has_list_item_tag(html@),
{
    let cs = crate::text::chars_of(html);
    let n = cs.len();
    let mut i: usize = 0;
    while n >= 3 && i < n - 2
        invariant
            cs@ == html@,
            n == cs@.len(),
            forall|j: int|
                0 <= j < i && j + 3 <= n ==> !(#[trigger] cs@[j] == '<' && (cs@[j + 1] == 'l' || cs@[j + 1] == 'L')
                    && (cs@[j + 2] == 'i' || cs@[j + 2] == 'I')),
        decreases n - i,
    {
        if cs[i] == '<' && (cs[i + 1] == 'l' || cs[i + 1] == 'L') && (cs[i + 2] == 'i' || cs[i + 2] == 'I') {
            assert(html@[i as int] == '<');
            return true;
        }
        i = i + 1;
    }
    assert forall|j: int|
        0 <= j && j + 3 <= html@.len() implies !(#[trigger] html@[j] == '<' && (html@[j + 1] == 'l' || html@[j + 1]
            == 'L') && (html@[j + 2] == 'i' || html@[j + 2] == 'I')) by {
        assert(j < i);
    }
    false
}

/// `html2md::parse_html`. It is a function of its argument. The converter
/// only ever shortens its output where a list item that stands in no list
/// strips line feeds from the start of the text, after which an enclosing
/// style can slice past the end (lists.rs, styles.rs); a text with no list
/// item tag holds no list item, and the conversion returns.
#[verifier::external_body]
fn parse_html(html: &str) -> (r: String)
    requires
        !has_list_item_tag(html@),
    ensures
        r@ == markdown_of(html@),
{
    html2md::parse_html(html)
}

/// An ASCII letter, with which a start tag's name begins.
pub open spec fn is_ascii_letter(c: char) -> bool {
    ('a' <= c && c <= 'z') || ('A' <= c && c <= 'Z')
}

/// A character that ends a tag's name: white space, `/` or `>`.
pub open spec fn ends_tag_name(c: char) -> bool {
    c == ' ' || c == '\t' || c == '\n' || c == '\r' || c == '\x0C' || c == '/' || c == '>'
}

/// A character of a tag name that reads back as a CSS type selector.
pub open spec fn selector_name_char(c: char) -> bool {
    is_ascii_letter(c) || ('0' <= c && c <= '9') || c == '-' || c == '_'
}

/// Scanning an HTML text for start tags: `state` is 0 outside a tag, 1
/// just after `<`, 2 inside a tag's name; each name holds only selector
/// characters.
pub open spec fn tag_scan(h: Seq<char>, state: nat) -> bool
    decreases h.len(),
{
    if h.len() == 0 {
        true
    } else {
        let c = h[0];
        if state == 2 {
            if ends_tag_name(c) {
                tag_scan(h.drop_first(), 0)
            } else if selector_name_char(c) {
                tag_scan(h.drop_first(), 2)
            } else {
                false
            }
        } else if state == 1 && is_ascii_letter(c) {
            tag_scan(h.drop_first(), 2)
        } else if c == '<' {
            tag_scan(h.drop_first(), 1)
        } else {
            tag_scan(h.drop_first(), 0)
        }
    }
}

/// An HTML text each of whose start tags is named by letters, digits, `-`
/// and `_` alone, so that the article search can read each name back as
/// a CSS selector.
pub open spec fn plain_tag_names(h: Seq<char>) -> bool {
    tag_scan(h, 0)
}

/// Whether each start tag of an HTML text has a plain name.
pub fn tag_names_fit(html: &str) -> (b: bool)
    ensures
        b == plain_tag_names(html@),
{
    let cs = crate::text::chars_of(html);
    let mut i: usize = 0;
    let mut state: u8 = 0;
    assert(html@.skip(0) =~= html@);
    while i < cs.len()
        invariant
            cs@ == html@,
            i <= cs@.len(),
            state <= 2,
            tag_scan(html@.skip(i as int), state as nat) == plain_tag_names(html@),
        decreases cs@.len() - i,
    {
        assert(html@.skip(i as int).drop_first() =~= html@.skip(i + 1));
        assert(html@.skip(i as int)[0] == cs@[i as int]);
        let c = cs[i];
        let letter = ('a' <= c && c <= 'z') || ('A' <= c && c <= 'Z');
        if state == 2 {
            if c == ' ' || c == '\t' || c == '\n' || c == '\r' || c == '\x0C' || c == '/' || c == '>' {
                state = 0;
            } else if letter || ('0' <= c && c <= '9') || c == '-' || c == '_' {
                state = 2;
            } else {
                return false;
            }
        } else if state == 1 && letter {
            state = 2;
        } else if c == '<' {
            state = 1;
        } else {
            state = 0;
        }
        i = i + 1;
    }
    true
}

/// `readability_rust::Readability::new` then `parse`: the article's title
/// and content when one is found. The algorithm walks a hash map of
/// candidates, so which article is found is not a function of the text
/// alone, and nothing is stated of it. The search reads the best
/// candidate's tag name back as a CSS selector and stops the program
/// where that name is no selector; a text whose tag names are plain has
/// no such name.
#[verifier::external_body]
fn readability_article(html: &str) -> (r: Option<(Option<String>, Option<String>)>)
    requires
        plain_tag_names(html@),
{
    match readability_rust::Readability::new(html, None) {
        Ok(mut parser) => parser.parse().map(|a| (a.title, a.content)),
        Err(_) => None,
    }
}

/// A URL to fetch, as `url::Url::parse` reads it.
#[derive(Debug)]
pub struct FetchUrl {
    pub scheme: String,
    pub host: Option<String>,
    pub serialized: String,
}

/// Parse the URL of a fetch; a refused URL is reported as `Invalid URL`.
pub fn parse_fetch_url(url: &str) -> (r: Result<FetchUrl, String>)
    ensures
        match url_parse(url@) {
            Ok(t) => r matches Ok(u) && u.scheme@ == t.0 && opt_string_view(u.host) == t.1 && u.serialized@ == t.2,
            Err(m) => r matches Err(e) && e@ == "Invalid URL: "@ + m,
        },
{
    match parse_url(url) {
        Ok(t) => Ok(FetchUrl { scheme: t.0, host: t.1, serialized: t.2 }),
        Err(m) => {
            let mut e = "Invalid URL: ".to_string();
            e.append(m.as_str());
            Err(e)
        },
    }
}

/// The robots.txt address of a site: `{scheme}://{host}/robots.txt`; an
/// error when the URL has no host.
pub fn robots_url(u: &FetchUrl) -> (r: Result<String, String>)
    ensures
        match u.host {
            Some(h) => r matches Ok(s) && s@ == u.scheme@ + "://"@ + h@ + "/robots.txt"@,
            None => r matches Err(e) && e@ == "Invalid host"@,
        },
{
    match &u.host {
        Some(h) => {
            let mut s = u.scheme.clone();
            s.append("://");
            s.append(h.as_str());
            s.append("/robots.txt");
            Ok(s)
        },
        None => Err("Invalid host".to_string()),
    }
}

/// What came of asking a site for its robots.txt.
#[derive(Debug)]
pub enum RobotsFetch {
    /// The request failed or timed out.
    Unreachable,
    /// The site answered with a status other than success.
    Unsuccessful,
    /// The body of a successful answer.
    Body(String),
    /// The body of a successful answer could not be read.
    Unreadable(String),
}

/// Whether robots.txt allows the fetch: a site without a readable answer
/// allows everything; an unreadable body is an error.
pub fn robots_verdict(fetch: &RobotsFetch, agent: &str, url: &FetchUrl) -> (r: Result<bool, String>)
    requires
        fetch matches RobotsFetch::Body(b) ==> robots_text_ok(b@),
    ensures
        match fetch {
            RobotsFetch::Unreachable => r == Ok::<bool, String>(true),
            RobotsFetch::Unsuccessful => r == Ok::<bool, String>(true),
            RobotsFetch::Body(b) => r == Ok::<bool, String>(robots_allow(b@, agent@, url.serialized@)),
            RobotsFetch::Unreadable(m) => r matches Err(e) && e@ == "Failed to read robots.txt: "@ + m@,
        },
{
    match fetch {
        RobotsFetch::Unreachable => Ok(true),
        RobotsFetch::Unsuccessful => Ok(true),
        RobotsFetch::Body(b) => Ok(robots_allows(b.as_str(), agent, url.serialized.as_str())),
        RobotsFetch::Unreadable(m) => {
            let mut e = "Failed to read robots.txt: ".to_string();
            e.append(m.as_str());
            Err(e)
        },
    }
}

/// Whether a fetch may go ahead: always when forced; otherwise only when
/// robots.txt was read and allows it.
pub open spec fn spec_robots_gate(url: Seq<char>, agent: Seq<char>, force: bool, verdict: Result<bool, Seq<char>>) -> Result<(), Seq<char>> {
    if force {
        Ok(())
    } else {
        match verdict {
            Err(m) => Err("Robots.txt check failed: "@ + m),
            Ok(false) => Err("Access to "@ + url + " is disallowed by robots.txt for user-agent '"@ + agent + "'"@),
            Ok(true) => Ok(()),
        }
    }
}

/// Decide whether a fetch may go ahead given the robots.txt verdict.
pub fn robots_gate(input: &FetchInput, verdict: &Result<bool, String>) -> (r: Result<(), String>)
    ensures
        match spec_robots_gate(input.url@, input.user_agent@, input.force, match verdict {
            Ok(b) => Ok::<bool, Seq<char>>(*b),
            Err(m) => Err::<bool, Seq<char>>(m@),
        }) {
            Ok(_) => r is Ok,
            Err(m) => r matches Err(e) && e@ == m,
        },
{
    if input.force {
        return Ok(());
    }
    match verdict {
        Err(m) => {
            let mut e = "Robots.txt check failed: ".to_string();
            e.append(m.as_str());
            Err(e)
        },
        Ok(false) => {
            let mut e = "Access to ".to_string();
            e.append(input.url.as_str());
            e.append(" is disallowed by robots.txt for user-agent '");
            e.append(input.user_agent.as_str());
            e.append("'");
            Err(e)
        },
        Ok(true) => Ok(()),
    }
}

/// The error of an unsuccessful answer: `HTTP error: {code} {reason}`.
pub fn http_error_message(code: u16, reason: Option<&str>) -> (r: String)
    ensures
        r@ == "HTTP error: "@ + decimal(code as nat) + " "@ + match reason {
            Some(s) => s@,
            None => "Unknown"@,
        },
{
    let mut r = "HTTP error: ".to_string();
    push_decimal(&mut r, code as u64);
    r.append(" ");
    match reason {
        Some(s) => r.append(s),
        None => r.append("Unknown"),
    }
    r
}

/// The error of a request that ran out of time.
pub fn timeout_message(seconds: u64) -> (r: String)
    ensures
        r@ == "Request timed out after "@ + decimal(seconds as nat) + " seconds"@,
{
    let mut r = "Request timed out after ".to_string();
    push_decimal(&mut r, seconds);
    r.append(" seconds");
    r
}

/// The title and content taken from a page: those of the article found,
/// the whole page standing in for missing content; without an article,
/// no title and the whole page.
pub open spec fn spec_extraction(html: Seq<char>, article: Option<(Option<Seq<char>>, Option<Seq<char>>)>) -> (Option<Seq<char>>, Seq<char>) {
    match article {
        Some((title, content)) => (
            title,
            match content {
                Some(c) => c,
                None => html,
            },
        ),
        None => (None, html),
    }
}

/// The views of the title and content of an article, if one was found.
pub open spec fn article_view(article: Option<(Option<String>, Option<String>)>) -> Option<(Option<Seq<char>>, Option<Seq<char>>)> {
    match article {
        Some(a) => Some((opt_string_view(a.0), opt_string_view(a.1))),
        None => None,
    }
}

/// The title and content given the article that was found, if any.
pub fn extraction_from(html: &str, article: Option<(Option<String>, Option<String>)>) -> (r: (Option<String>, String))
    ensures
        (opt_string_view(r.0), r.1@) == spec_extraction(html@, article_view(article)),
{
    match article {
        Some((title, content)) => {
            let c = match content {
                Some(c) => c,
                None => html.to_string(),
            };
            (title, c)
        },
        None => (None, html.to_string()),
    }
}

/// The fetch tool's decisions and rendering; the HTTP client lives with
/// the caller.
pub struct FetchTool {}

impl FetchTool {
    /// A fetch tool.
    pub fn new() -> (t: Self) {
        FetchTool {}
    }

    /// The tool's name.
    pub fn name(&self) -> (r: &'static str)
        ensures
            r@ == "fetch"@,
    {
        "fetch"
    }

    /// The tool's description.
    pub fn description(&self) -> (r: &'static str)
        ensures
            r@ == "Fetch content from a URL with robots.txt compliance, content extraction, and Markdown conversion. Supports pagination for large documents."@,
    {
        "Fetch content from a URL with robots.txt compliance, content extraction, and Markdown conversion. Supports pagination for large documents."
    }

    /// Extract the main content of a page with Mozilla's Readability
    /// algorithm, falling back to the whole page, for a page whose tag
    /// names are plain (see `tag_names_fit`).
    pub fn extract_content(&self, html: &str, url: &str) -> (r: (Option<String>, String))
        requires
            plain_tag_names(html@),
        ensures
            exists|a: Option<(Option<Seq<char>>, Option<Seq<char>>)>|
                (opt_string_view(r.0), r.1@) == #[trigger] spec_extraction(html@, a),
    {
        let article = readability_article(html);
        let ghost a = article_view(article);
        let r = extraction_from(html, article);
        assert((opt_string_view(r.0), r.1@) == spec_extraction(html@, a));
        r
    }

    /// Convert HTML to Markdown, for a text without list items (see
    /// `has_list_items`).
    pub fn html_to_markdown(&self, html: &str) -> (r: String)
        requires
            !has_list_item_tag(html@),
        ensures
            r@ == markdown_of(html@),
    {
        parse_html(html)
    }

    /// One page of the content, counted in characters: the text, whether
    /// more follows, and the whole length.
    pub fn paginate_content(&self, content: String, start_index: Option<usize>, max_length: Option<usize>) -> (r: (String, bool, usize))
        ensures
            (r.0@, r.1, r.2 as nat) == spec_paginate(content@, start_index, max_length),
    {
        paginate(content.as_str(), start_index, max_length)
    }

    /// A fetch result as plain text.
    pub fn format_output_plain(&self, output: &str) -> (r: String)
        requires
            header_offset_ok(output@),
        ensures
            r@ == spec_fetch_plain(output@),
    {
        fetch_plain(output)
    }

    /// A fetch result with ANSI colors.
    pub fn format_output_ansi(&self, output: &str) -> (r: String)
        requires
            header_offset_ok(output@),
        ensures
            r@ == spec_fetch_ansi(output@),
    {
        fetch_ansi(output)
    }

    /// A fetch result as Markdown.
    pub fn format_output_markdown(&self, output: &str) -> (r: String)
        requires
            header_offset_ok(output@),
        ensures
            r@ == spec_fetch_markdown(output@),
    {
        fetch_markdown(output)
    }
}

impl Default for FetchTool {
    fn default() -> (t: Self) {
        FetchTool::new()
    }
}

/// The end of a page that starts at `start` and holds at most `max`
/// characters of a text of `total` characters.
pub open spec fn page_end(start: int, max: int, total: int) -> int {
    if start + max <= total {
        start + max
    } else {
        total
    }
}

/// One page of a text, counted in characters: the text, whether more
/// follows it, and the whole length in characters.
pub open spec fn spec_paginate(content: Seq<char>, start_index: Option<usize>, max_length: Option<usize>) -> (Seq<char>, bool, nat) {
    let n = content.len();
    let start: int = match start_index {
        Some(s) => s as int,
        None => 0,
    };
    if start >= n {
        (seq![], false, n)
    } else {
        match max_length {
            Some(m) => {
                let end = page_end(start, m as int, n as int);
                (content.subrange(start, end), end < n, n)
            },
            None => (content.skip(start), false, n),
        }
    }
}

/// One page of a text, counted in characters.
pub fn paginate(content: &str, start_index: Option<usize>, max_length: Option<usize>) -> (r: (String, bool, usize))
    ensures
        (r.0@, r.1, r.2 as nat) == spec_paginate(content@, start_index, max_length),
{
    let total = content.unicode_len();
    let start = match start_index {
        Some(s) => s,
        None => 0,
    };
    if start >= total {
        proof {
            reveal_strlit("");
        }
        return ("".to_string(), false, total);
    }
    match max_length {
        Some(m) => {
            let end = if m <= total - start {
                start + m
            } else {
                total
            };
            let page = content.substring_char(start, end);
            (page.to_string(), end < total, total)
        },
        None => {
            let page = content.substring_char(start, total);
            assert(page@ =~= content@.skip(start as int));
            (page.to_string(), false, total)
        },
    }
}

/// Two consecutive pages put together give the text from the first
/// page's start on: the page at `start` of at most `max` characters, then
/// all that follows it; more follows the first page exactly when the text
/// goes on past it.
pub proof fn law_pages_concatenate(content: Seq<char>, start: usize, max: usize)
    requires
        start + max <= usize::MAX,
    ensures
        spec_paginate(content, Some(start), Some(max)).0 + spec_paginate(
            content,
            Some((start + max) as usize),
            None,
        ).0 == spec_paginate(content, Some(start), None).0,
        spec_paginate(content, Some(start), Some(max)).1 <==> (start + max < content.len()),
{
    if start >= content.len() {
        assert(Seq::<char>::empty() + Seq::<char>::empty() =~= Seq::<char>::empty());
    } else {
        let e = page_end(start as int, max as int, content.len() as int);
        if e < content.len() {
            assert(content.subrange(start as int, e) + content.skip(e) =~= content.skip(start as int));
        } else {
            assert(content.subrange(start as int, e) + Seq::<char>::empty() =~= content.skip(start as int));
        }
    }
}

/// The text of a fetch result: the URL, the trimmed title, the length, the
/// page shown when the content was cut, then the content.
pub open spec fn fetch_result_text(url: Seq<char>, title: Option<Seq<char>>, start: nat, page: Seq<char>, truncated: bool, total: nat) -> Seq<char> {
    "URL: "@ + url + "\n"@ + match title {
        Some(t) => "Title: "@ + trim_spec(t) + "\n"@,
        None => seq![],
    } + "Content Length: "@ + decimal(total) + " characters\n"@ + (if truncated {
        "Showing: characters "@ + decimal(start) + "-"@ + decimal(start + page.len()) + " (truncated)\n"@
    } else {
        seq![]
    }) + "\n---\n\n"@ + page
}

/// The result text of a fetch of `url` whose page of content is `page`.
pub fn fetch_result(url: &str, title: &Option<String>, start_index: Option<usize>, page: &str, truncated: bool, total: usize) -> (r: String)
    requires
        truncated ==> match start_index {
            Some(s) => s + page@.len() <= usize::MAX,
            None => true,
        },
    ensures
        r@ == fetch_result_text(
            url@,
            opt_string_view(*title),
            match start_index {
                Some(s) => s as nat,
                None => 0,
            },
            page@,
            truncated,
            total as nat,
        ),
{
    let mut r = "URL: ".to_string();
    r.append(url);
    r.append("\n");
    match title {
        Some(t) => {
            r.append("Title: ");
            r.append(trim(t.as_str()));
            r.append("\n");
        },
        None => {},
    }
    r.append("Content Length: ");
    push_decimal(&mut r, total as u64);
    r.append(" characters\n");
    let ghost before_showing = r@;
    if truncated {
        let start = match start_index {
            Some(s) => s,
            None => 0,
        };
        let end = start + page.unicode_len();
        r.append("Showing: characters ");
        push_decimal(&mut r, start as u64);
        r.append("-");
        push_decimal(&mut r, end as u64);
        r.append(" (truncated)\n");
    }
    r.append("\n---\n\n");
    r.append(page);
    proof {
        reveal_strlit("");
    }
    assert(r@ =~= fetch_result_text(
        url@,
        opt_string_view(*title),
        match start_index {
            Some(s) => s as nat,
            None => 0,
        },
        page@,
        truncated,
        total as nat,
    ));
    r
}

/// The header fields of a fetch result: the URL, the title, the length,
/// and the page shown when the content was cut.
pub open spec fn fetch_fields(url: Seq<char>, title: Option<Seq<char>>, start: nat, page: Seq<char>, truncated: bool, total: nat) -> Seq<(Seq<char>, Seq<char>)> {
    seq![("URL"@, url)] + match title {
        Some(t) => seq![("Title"@, trim_spec(t))],
        None => seq![],
    } + seq![("Content Length"@, decimal(total) + " characters"@)] + if truncated {
        seq![("Showing"@, "characters "@ + decimal(start) + "-"@ + decimal(start + page.len()) + " (truncated)"@)]
    } else {
        seq![]
    }
}

proof fn lemma_decimal_single_line(n: nat)
    ensures
        single_line(decimal(n)),
    decreases n,
{
    if n >= 10 {
        lemma_decimal_single_line(n / 10);
        let d = decimal(n / 10);
        assert forall|i: int| 0 <= i < decimal(n).len() implies decimal(n)[i] != '\n' && decimal(n)[i] != '\r' by {
            if i < d.len() {
                assert(decimal(n)[i] == d[i]);
            }
        }
    }
}

proof fn lemma_fetch_fields_writable(url: Seq<char>, title: Option<Seq<char>>, start: nat, page: Seq<char>, truncated: bool, total: nat)
    requires
        single_line(url),
        title matches Some(t) ==> single_line(trim_spec(t)),
    ensures
        forall|i: int|
            0 <= i < fetch_fields(url, title, start, page, truncated, total).len() ==> writable_field(
                #[trigger] fetch_fields(url, title, start, page, truncated, total)[i],
            ),
{
    reveal_strlit("URL");
    reveal_strlit("Title");
    reveal_strlit("Content Length");
    reveal_strlit("Showing");
    reveal_strlit(" characters");
    reveal_strlit("characters ");
    reveal_strlit("-");
    reveal_strlit(" (truncated)");
    lemma_decimal_single_line(total);
    lemma_decimal_single_line(start);
    lemma_decimal_single_line(start + page.len());
    let fs = fetch_fields(url, title, start, page, truncated, total);
    let len_value = decimal(total) + " characters"@;
    assert(single_line(len_value)) by {
        assert forall|i: int| 0 <= i < len_value.len() implies len_value[i] != '\n' && len_value[i] != '\r' by {
            if i < decimal(total).len() {
                assert(len_value[i] == decimal(total)[i]);
            }
        }
    }
    let a = decimal(start);
    let b = decimal(start + page.len());
    let show = "characters "@ + a + "-"@ + b + " (truncated)"@;
    assert(single_line(show)) by {
        assert forall|i: int| 0 <= i < show.len() implies show[i] != '\n' && show[i] != '\r' by {
            if 11 <= i < 11 + a.len() {
                assert(show[i] == a[i - 11]);
            } else if 12 + a.len() <= i < 12 + a.len() + b.len() {
                assert(show[i] == b[i - 12 - a.len()]);
            }
        }
    }
    assert forall|i: int| 0 <= i < fs.len() implies writable_field(#[trigger] fs[i]) by {}
}

proof fn lemma_fetch_text_framed(url: Seq<char>, title: Option<Seq<char>>, start: nat, page: Seq<char>, truncated: bool, total: nat)
    ensures
        fetch_result_text(url, title, start, page, truncated, total) == framed(
            fetch_fields(url, title, start, page, truncated, total),
            page,
        ),
{
    let fs = fetch_fields(url, title, start, page, truncated, total);
    reveal_with_fuel(header_text, 5);
    reveal_strlit("URL: ");
    reveal_strlit("URL");
    reveal_strlit("\n");
    reveal_strlit(": ");
    reveal_strlit("Title: ");
    reveal_strlit("Title");
    reveal_strlit("Content Length: ");
    reveal_strlit("Content Length");
    reveal_strlit(" characters\n");
    reveal_strlit(" characters");
    reveal_strlit("Showing: characters ");
    reveal_strlit("Showing");
    reveal_strlit("characters ");
    reveal_strlit(" (truncated)\n");
    reveal_strlit(" (truncated)");
    reveal_strlit("");
    let len_line = decimal(total) + " characters"@;
    let show = "characters "@ + decimal(start) + "-"@ + decimal(start + page.len()) + " (truncated)"@;
    let head = seq![("URL"@, url)] + match title {
        Some(t) => seq![("Title"@, trim_spec(t))],
        None => seq![],
    };
    assert(header_text(seq![("Content Length"@, len_line)]) =~= "Content Length: "@ + decimal(total) + " characters\n"@);
    if truncated {
        assert(header_text(seq![("Showing"@, show)]) =~= "Showing: characters "@ + decimal(start) + "-"@ + decimal(
            start + page.len(),
        ) + " (truncated)\n"@);
    }
    match title {
        Some(t) => {
            assert(header_text(head) =~= "URL: "@ + url + "\n"@ + "Title: "@ + trim_spec(t) + "\n"@);
        },
        None => {
            assert(header_text(head) =~= "URL: "@ + url + "\n"@);
        },
    }
    lemma_header_text_append(head, seq![("Content Length"@, len_line)]);
    if truncated {
        lemma_header_text_append(head + seq![("Content Length"@, len_line)], seq![("Showing"@, show)]);
    }
    assert(fetch_result_text(url, title, start, page, truncated, total) =~= framed(fs, page));
}

/// The formatters read back what a fetch wrote: the fields of a result
/// are its URL, title, length and page, and its content is the page, when
/// neither the URL nor the title breaks a line.
pub proof fn law_fetch_read_back(url: Seq<char>, title: Option<Seq<char>>, start: nat, page: Seq<char>, truncated: bool, total: nat)
    requires
        single_line(url),
        title matches Some(t) ==> single_line(trim_spec(t)),
    ensures
        header_fields(lines(fetch_result_text(url, title, start, page, truncated, total))) == fetch_fields(
            url,
            title,
            start,
            page,
            truncated,
            total,
        ),
        header_content(fetch_result_text(url, title, start, page, truncated, total)) == trim_start_matches_spec(
            page,
            "\n"@,
        ),
        header_offset_ok(fetch_result_text(url, title, start, page, truncated, total)),
{
    lemma_fetch_fields_writable(url, title, start, page, truncated, total);
    lemma_fetch_text_framed(url, title, start, page, truncated, total);
    law_header_read_back(fetch_fields(url, title, start, page, truncated, total), page);
}

/// The plain-text icon of a fetch result field.
pub open spec fn fetch_plain_icon(key: Seq<char>) -> Seq<char> {
    if key == "URL"@ {
        "[>]"@
    } else if key == "Title"@ {
        "[#]"@
    } else if key == "Content Length"@ {
        "[=]"@
    } else if key == "Showing"@ {
        "[~]"@
    } else {
        "   "@
    }
}

fn fetch_plain_icon_of(key: &str) -> (r: &'static str)
    ensures
        r@ == fetch_plain_icon(key@),
{
    if str_equal(key, "URL") {
        "[>]"
    } else if str_equal(key, "Title") {
        "[#]"
    } else if str_equal(key, "Content Length") {
        "[=]"
    } else if str_equal(key, "Showing") {
        "[~]"
    } else {
        "   "
    }
}

/// The ANSI icon and color of a fetch result field.
pub open spec fn fetch_ansi_style(key: Seq<char>) -> (Seq<char>, Seq<char>) {
    if key == "URL"@ {
        ("\x1b[34m󰖟\x1b[0m"@, "\x1b[34m"@)
    } else if key == "Title"@ {
        ("\x1b[33m󰉹\x1b[0m"@, "\x1b[1m"@)
    } else if key == "Content Length"@ {
        ("\x1b[32m󰋊\x1b[0m"@, "\x1b[32m"@)
    } else if key == "Showing"@ {
        ("\x1b[36m󰦨\x1b[0m"@, "\x1b[36m"@)
    } else {
        ("  "@, "\x1b[0m"@)
    }
}

fn fetch_ansi_style_of(key: &str) -> (r: (&'static str, &'static str))
    ensures
        (r.0@, r.1@) == fetch_ansi_style(key@),
{
    if str_equal(key, "URL") {
        ("\x1b[34m󰖟\x1b[0m", "\x1b[34m")
    } else if str_equal(key, "Title") {
        ("\x1b[33m󰉹\x1b[0m", "\x1b[1m")
    } else if str_equal(key, "Content Length") {
        ("\x1b[32m󰋊\x1b[0m", "\x1b[32m")
    } else if str_equal(key, "Showing") {
        ("\x1b[36m󰦨\x1b[0m", "\x1b[36m")
    } else {
        ("  ", "\x1b[0m")
    }
}

/// The plain row of a fetch result field: icon, key padded to 15, value.
pub open spec fn fetch_plain_row(key: Seq<char>, value: Seq<char>) -> Seq<char> {
    fetch_plain_icon(key) + " "@ + pad_right_spec(key, 15) + " "@ + value + "\n"@
}

/// The ANSI row of a fetch result field.
pub open spec fn fetch_ansi_row(key: Seq<char>, value: Seq<char>) -> Seq<char> {
    fetch_ansi_style(key).0 + " \x1b[2m"@ + pad_right_spec(key, 15) + "\x1b[0m "@ + fetch_ansi_style(key).1 + value
        + "\x1b[0m\n"@
}

/// The Markdown row of a fetch result field; the title is the heading.
pub open spec fn fetch_markdown_row(key: Seq<char>, value: Seq<char>) -> Seq<char> {
    if key != "Title"@ {
        "- **"@ + key + "**: "@ + value + "\n"@
    } else {
        seq![]
    }
}

/// The plain-text rendering of a fetch result.
pub open spec fn spec_fetch_plain(output: Seq<char>) -> Seq<char> {
    let fields = header_fields(lines(output));
    if fields.len() == 0 {
        output
    } else {
        repeat_spec("─"@, 60) + "\n"@ + concat_rows(fields, |k: Seq<char>, v: Seq<char>| fetch_plain_row(k, v))
            + repeat_spec("─"@, 60) + "\n\n"@ + header_content(output)
    }
}

/// The ANSI rendering of a fetch result.
pub open spec fn spec_fetch_ansi(output: Seq<char>) -> Seq<char> {
    let fields = header_fields(lines(output));
    if fields.len() == 0 {
        output
    } else {
        "\x1b[2m"@ + repeat_spec("─"@, 60) + "\x1b[0m\n"@ + concat_rows(
            fields,
            |k: Seq<char>, v: Seq<char>| fetch_ansi_row(k, v),
        ) + "\x1b[2m"@ + repeat_spec("─"@, 60) + "\x1b[0m\n\n"@ + header_content(output)
    }
}

/// The Markdown rendering of a fetch result: the title as a heading, the
/// other fields as a list, a rule, then the content.
pub open spec fn spec_fetch_markdown(output: Seq<char>) -> Seq<char> {
    let fields = header_fields(lines(output));
    if fields.len() == 0 {
        output
    } else {
        let heading = match first_value(fields, "Title"@) {
            Some(t) => "## "@ + t + "\n\n"@,
            None => seq![],
        };
        heading + concat_rows(fields, |k: Seq<char>, v: Seq<char>| fetch_markdown_row(k, v)) + "\n---\n\n"@
            + header_content(output)
    }
}

/// Split a fetch result into its header fields and its content.
pub fn parse_fetch_header<'a>(output: &'a str) -> (r: (Vec<(&'a str, &'a str)>, &'a str))
    requires
        header_offset_ok(output@),
    ensures
        pair_views(r.0@) == header_fields(lines(output@)),
        r.1@ == header_content(output@),
{
    parse_header(output)
}

fn fetch_plain(output: &str) -> (r: String)
    requires
        header_offset_ok(output@),
    ensures
        r@ == spec_fetch_plain(output@),
{
    let (metadata, content) = parse_fetch_header(output);
    if metadata.len() == 0 {
        return output.to_string();
    }
    let ghost fs = pair_views(metadata@);
    let ghost row = |k: Seq<char>, v: Seq<char>| fetch_plain_row(k, v);
    let mut out = String::new();
    push_repeat(&mut out, "─", 60);
    out.append("\n");
    let ghost base = out@;
    let mut i: usize = 0;
    assert(fs.take(0) =~= Seq::<(Seq<char>, Seq<char>)>::empty());
    while i < metadata.len()
        invariant
            fs == pair_views(metadata@),
            row == (|k: Seq<char>, v: Seq<char>| fetch_plain_row(k, v)),
            i <= metadata@.len(),
            out@ == base + concat_rows(fs.take(i as int), row),
        decreases metadata@.len() - i,
    {
        let (key, value) = metadata[i];
        let ghost prev = out@;
        out.append(fetch_plain_icon_of(key));
        out.append(" ");
        push_pad_right(&mut out, key, 15);
        out.append(" ");
        out.append(value);
        out.append("\n");
        proof {
            lemma_concat_rows_step(fs, i as int, row);
            assert(fs[i as int] == (key@, value@));
            assert(out@ =~= prev + fetch_plain_row(key@, value@));
        }
        i = i + 1;
    }
    assert(fs.take(metadata@.len() as int) =~= fs);
    push_repeat(&mut out, "─", 60);
    out.append("\n\n");
    out.append(content);
    out
}

fn fetch_ansi(output: &str) -> (r: String)
    requires
        header_offset_ok(output@),
    ensures
        r@ == spec_fetch_ansi(output@),
{
    let (metadata, content) = parse_fetch_header(output);
    if metadata.len() == 0 {
        return output.to_string();
    }
    let ghost fs = pair_views(metadata@);
    let ghost row = |k: Seq<char>, v: Seq<char>| fetch_ansi_row(k, v);
    let mut out = String::new();
    out.append("\x1b[2m");
    push_repeat(&mut out, "─", 60);
    out.append("\x1b[0m\n");
    let ghost base = out@;
    let mut i: usize = 0;
    assert(fs.take(0) =~= Seq::<(Seq<char>, Seq<char>)>::empty());
    while i < metadata.len()
        invariant
            fs == pair_views(metadata@),
            row == (|k: Seq<char>, v: Seq<char>| fetch_ansi_row(k, v)),
            i <= metadata@.len(),
            out@ == base + concat_rows(fs.take(i as int), row),
        decreases metadata@.len() - i,
    {
        let (key, value) = metadata[i];
        let ghost prev = out@;
        let (icon, color) = fetch_ansi_style_of(key);
        out.append(icon);
        out.append(" \x1b[2m");
        push_pad_right(&mut out, key, 15);
        out.append("\x1b[0m ");
        out.append(color);
        out.append(value);
        out.append("\x1b[0m\n");
        proof {
            lemma_concat_rows_step(fs, i as int, row);
            assert(fs[i as int] == (key@, value@));
            assert(out@ =~= prev + fetch_ansi_row(key@, value@));
        }
        i = i + 1;
    }
    assert(fs.take(metadata@.len() as int) =~= fs);
    out.append("\x1b[2m");
    push_repeat(&mut out, "─", 60);
    out.append("\x1b[0m\n\n");
    out.append(content);
    out
}

fn fetch_markdown(output: &str) -> (r: String)
    requires
        header_offset_ok(output@),
    ensures
        r@ == spec_fetch_markdown(output@),
{
    let (metadata, content) = parse_fetch_header(output);
    if metadata.len() == 0 {
        return output.to_string();
    }
    let ghost fs = pair_views(metadata@);
    let ghost row = |k: Seq<char>, v: Seq<char>| fetch_markdown_row(k, v);
    let mut out = String::new();
    match find_value(&metadata, "Title") {
        Some(t) => {
            out.append("## ");
            out.append(t);
            out.append("\n\n");
        },
        None => {},
    }
    let ghost base = out@;
    let mut i: usize = 0;
    assert(fs.take(0) =~= Seq::<(Seq<char>, Seq<char>)>::empty());
    while i < metadata.len()
        invariant
            fs == pair_views(metadata@),
            row == (|k: Seq<char>, v: Seq<char>| fetch_markdown_row(k, v)),
            i <= metadata@.len(),
            out@ == base + concat_rows(fs.take(i as int), row),
        decreases metadata@.len() - i,
    {
        let (key, value) = metadata[i];
        let ghost prev = out@;
        if !str_equal(key, "Title") {
            out.append("- **");
            out.append(key);
            out.append("**: ");
            out.append(value);
            out.append("\n");
        }
        proof {
            lemma_concat_rows_step(fs, i as int, row);
            assert(fs[i as int] == (key@, value@));
            assert(out@ =~= prev + fetch_markdown_row(key@, value@));
        }
        i = i + 1;
    }
    assert(fs.take(metadata@.len() as int) =~= fs);
    out.append("\n---\n\n");
    out.append(content);
    out
}

/// A page is the window of the text that starts at the start index and
/// holds `min(max, characters left)` characters; it is cut short of the
/// end exactly when characters remain after it; a start at or past the
/// end gives an empty, uncut page; and the total is always the text's
/// length in characters.
pub proof fn law_page_window(content: Seq<char>, start: usize, max: usize)
    ensures
        ({
            let p = spec_paginate(content, Some(start), Some(max));
            let n = content.len() as int;
            let take = if (max as int) <= n - start { max as int } else { n - start };
            &&& p.2 == n
            &&& (start as int) >= n ==> p.0.len() == 0 && !p.1
            &&& (start as int) <= n ==> p.0.len() == take
            &&& forall|j: int| 0 <= j < p.0.len() ==> #[trigger] p.0[j] == content[start + j]
            &&& p.1 <==> (start as int) + (max as int) < n
        }),
        spec_paginate(content, None, None) == (content, false, content.len()),
{
    assert(content.skip(0) =~= content);
}

/// The robots.txt gate: a forced fetch always goes ahead; otherwise a
/// fetch goes ahead exactly when robots.txt allows it, a disallowed one
/// is refused naming the URL and the user agent, and a failed check is
/// refused with its reason.
pub proof fn law_robots_gate(url: Seq<char>, agent: Seq<char>, force: bool, verdict: Result<bool, Seq<char>>)
    ensures
        force ==> spec_robots_gate(url, agent, force, verdict) is Ok,
        !force ==> (spec_robots_gate(url, agent, force, verdict) is Ok <==> verdict == Ok::<bool, Seq<char>>(true)),
        !force && verdict == Ok::<bool, Seq<char>>(false) ==> (spec_robots_gate(url, agent, force, verdict) matches Err(
            e,
        ) && e == "Access to "@ + url + " is disallowed by robots.txt for user-agent '"@ + agent + "'"@),
        !force ==> (verdict matches Err(m) ==> (spec_robots_gate(url, agent, force, verdict) matches Err(e) && e
            == "Robots.txt check failed: "@ + m)),
{
}

} // verus!
