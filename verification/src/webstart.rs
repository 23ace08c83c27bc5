//! Java Web Start: reading the server's JNLP, deciding where its jars are
//! cached and which to fetch, and planning the administrator's command line.

use vstd::prelude::*;

use crate::codec::{jar_digest, sha256_base64};
use crate::connection::ConnectionEntry;
use crate::xml::{
    attr_value, attribute, find_tagged, get_node, has_tag, is_under, node_has_tag, node_views,
    parse_xml, under, xml_nodes, NodeView, XmlNode,
};
use crate::text::{
    ascii_lowercase, chars_of, decimal, decimal_string, ends_with, eq_ignore_ascii_case, is_ascii_alnum,
    is_ascii_alnum_char, is_dash_or_underscore, join, join_strings, lemma_trim_by, owned,
    push_str, segments, sort_strings, sorted_seqs, split_segments, split_whitespace,
    starts_with, string_of_range, trim, trim_by, trimmed, trimmed_dashes,
    vec_eq_ignore_ascii_case, vec_starts_with, views, words,
};

verus! {

// ---------------------------------------------------------------------------
// Unicode case and classes (std)
// ---------------------------------------------------------------------------

/// `str::to_lowercase` of `s` (Unicode lowercase mapping).
pub uninterp spec fn unicode_lowercase(s: Seq<char>) -> Seq<char>;

/// `char::is_alphanumeric` of `c` (Unicode `Alphabetic` or `Numeric`).
pub uninterp spec fn unicode_alphanumeric(c: char) -> bool;

/// Calls `str::to_lowercase`; the result is named [`unicode_lowercase`] of
/// the input. For ASCII text the contract also says what the Unicode
/// lowercase mapping gives there: `A`-`Z` become `a`-`z` and every other
/// character is kept.
#[verifier::external_body]
pub(crate) fn to_lowercase(s: &str) -> (r: String)
    ensures
        r@ == unicode_lowercase(s@),
        (forall|i: int| 0 <= i < s@.len() ==> (#[trigger] s@[i] as u32) < 128) ==> r@
            == ascii_lowercase(s@),
{
    s.to_lowercase()
}

/// Calls `char::is_alphanumeric`; the result is named
/// [`unicode_alphanumeric`]. For an ASCII character the contract also says
/// what the Unicode properties give: exactly the letters and digits.
#[verifier::external_body]
pub(crate) fn is_alphanumeric(c: char) -> (r: bool)
    ensures
        r == unicode_alphanumeric(c),
        (c as u32) < 128 ==> r == is_ascii_alnum(c),
{
    c.is_alphanumeric()
}

// ---------------------------------------------------------------------------
// Names that reach the file system and the window system
// ---------------------------------------------------------------------------

/// A character of a path component: alphanumerics are kept, `.` becomes
/// `_` and everything else becomes `-`.
pub open spec fn path_char(c: char) -> char {
    if unicode_alphanumeric(c) {
        c
    } else if c == '.' {
        '_'
    } else {
        '-'
    }
}

/// [`sanitize_for_path`]: lowercase, map every character with
/// [`path_char`], then trim `-` and `_` from both ends.
pub open spec fn path_component(s: Seq<char>) -> Seq<char> {
    trim_by(
        unicode_lowercase(s).map_values(|c: char| path_char(c)),
        |c: char| is_dash_or_underscore(c),
    )
}

/// Sanitizes a string (an engine type, a connection id) for use as one
/// path component. The result cannot climb out of the directory it is
/// joined to: it holds no `/`, `\` or `.`, and it neither starts nor ends
/// with `-` or `_`.
pub fn sanitize_for_path(s: &str) -> (r: String)
    ensures
        r@ == path_component(s@),
        forall|i: int| 0 <= i < r@.len() ==> #[trigger] r@[i] != '/' && r@[i] != '\\' && r@[i] != '.',
        r@.len() > 0 ==> !is_dash_or_underscore(r@[0]) && !is_dash_or_underscore(r@.last()),
{
    let lower = chars_of(to_lowercase(s).as_str());
    let mut mapped: Vec<char> = Vec::new();
    let mut i: usize = 0;
    while i < lower.len()
        invariant
            i <= lower.len(),
            lower@ == unicode_lowercase(s@),
            mapped@ == lower@.take(i as int).map_values(|c: char| path_char(c)),
            forall|k: int| 0 <= k < i ==> #[trigger] mapped@[k] != '/' && mapped@[k] != '\\' && mapped@[k] != '.',
        decreases lower.len() - i,
    {
        let c = lower[i];
        let d = if is_alphanumeric(c) {
            c
        } else if c == '.' {
            '_'
        } else {
            '-'
        };
        mapped.push(d);
        assert(lower@.take(i + 1).map_values(|c: char| path_char(c)) == lower@.take(
            i as int,
        ).map_values(|c: char| path_char(c)).push(path_char(c)));
        i = i + 1;
    }
    assert(lower@.take(lower.len() as int) == lower@);
    let r = trimmed_dashes(&mapped);
    proof {
        lemma_trim_by(mapped@, |c: char| is_dash_or_underscore(c));
        assert forall|i: int| 0 <= i < r@.len() implies #[trigger] r@[i] != '/' && r@[i] != '\\' && r@[i] != '.' by {
            let j = choose|j: int| 0 <= j < mapped@.len() && mapped@[j] == #[trigger] r@[i];
            assert(mapped@[j] != '/');
        }
    }
    r
}

/// A character of a window class: ASCII letters, digits and `-` are kept,
/// everything else becomes `-`.
pub open spec fn class_char(c: char) -> char {
    if is_ascii_alnum(c) || c == '-' {
        c
    } else {
        '-'
    }
}

/// The `WM_CLASS` stamped on a connection's administrator windows and
/// matched by its desktop entry: `launcher-` followed by the id with every
/// character other than an ASCII letter, digit or `-` replaced by `-`.
pub open spec fn window_class(id: Seq<char>) -> Seq<char> {
    "launcher-"@ + id.map_values(|c: char| class_char(c))
}

/// Executable [`window_class`].
pub fn wm_class(conn_id: &str) -> (r: String)
    ensures
        r@ == window_class(conn_id@),
{
    let v = chars_of(conn_id);
    let mut r = owned("launcher-");
    let ghost prefix = r@;
    let mut i: usize = 0;
    while i < v.len()
        invariant
            i <= v.len(),
            v@ == conn_id@,
            prefix == "launcher-"@,
            r@ == prefix + v@.take(i as int).map_values(|c: char| class_char(c)),
        decreases v.len() - i,
    {
        let c = v[i];
        let d = if is_ascii_alnum_char(c) || c == '-' {
            c
        } else {
            '-'
        };
        r.push(d);
        assert(v@.take(i + 1).map_values(|c: char| class_char(c)) == v@.take(i as int).map_values(
            |c: char| class_char(c),
        ).push(class_char(c)));
        i = i + 1;
    }
    assert(v@.take(v.len() as int) == v@);
    r
}

// ---------------------------------------------------------------------------
// Hrefs
// ---------------------------------------------------------------------------

/// Whether `c` separates path components (either separator is honoured, so
/// that a server-supplied `\` cannot escape the cache directory on Windows).
pub open spec fn is_path_sep(c: char) -> bool {
    c == '/' || c == '\\'
}

/// The index of the last separator in `s`, or -1 when there is none.
pub open spec fn last_sep(s: Seq<char>) -> int
    decreases s.len(),
{
    if s.len() == 0 {
        -1
    } else if is_path_sep(s.last()) {
        s.len() - 1
    } else {
        last_sep(s.drop_last())
    }
}

proof fn lemma_last_sep(s: Seq<char>)
    ensures
        -1 <= last_sep(s) < s.len(),
        last_sep(s) >= 0 ==> is_path_sep(s[last_sep(s)]),
        forall|i: int| last_sep(s) < i < s.len() ==> !is_path_sep(#[trigger] s[i]),
    decreases s.len(),
{
    if s.len() > 0 && !is_path_sep(s.last()) {
        lemma_last_sep(s.drop_last());
        assert forall|i: int| last_sep(s) < i < s.len() implies !is_path_sep(#[trigger] s[i]) by {
            if i < s.len() - 1 {
                assert(s[i] == s.drop_last()[i]);
            }
        }
    }
}

/// The file-name part of an href: what follows its last separator.
pub open spec fn file_name_of(s: Seq<char>) -> Seq<char> {
    s.skip(last_sep(s) + 1)
}

/// The directory part of an href: what precedes its last separator, or
/// empty when it has none.
pub open spec fn dir_of(s: Seq<char>) -> Seq<char> {
    if last_sep(s) >= 0 {
        s.take(last_sep(s))
    } else {
        Seq::empty()
    }
}

/// The position of the last separator, when there is one.
fn find_last_sep(v: &Vec<char>) -> (r: Option<usize>)
    ensures
        match r {
            Some(i) => i == last_sep(v@),
            None => last_sep(v@) == -1,
        },
{
    let mut j: usize = v.len();
    assert(v@.take(j as int) == v@);
    while j > 0
        invariant
            j <= v.len(),
            last_sep(v@) == last_sep(v@.take(j as int)),
        decreases j,
    {
        assert(v@.take(j as int).last() == v@[j - 1]);
        assert(v@.take(j as int).drop_last() == v@.take(j - 1));
        if v[j - 1] == '/' || v[j - 1] == '\\' {
            return Some(j - 1);
        }
        j = j - 1;
    }
    None
}

/// The file-name part of an href (`a/b/c.jar` gives `c.jar`).
pub fn get_file_name_from_path(p: &str) -> (r: String)
    ensures
        r@ == file_name_of(p@),
{
    let v = chars_of(p);
    proof {
        assert(v@.take(v.len() as int) == v@);
        lemma_last_sep(v@);
    }
    let start: usize = match find_last_sep(&v) {
        Some(i) => i + 1,
        None => 0,
    };
    string_of_range(&v, start, v.len())
}

/// The directory part of an href (`webstart/extensions/foo.jnlp` gives
/// `webstart/extensions`), or empty when it names a bare file.
pub fn get_dir_from_path(p: &str) -> (r: String)
    ensures
        r@ == dir_of(p@),
{
    let v = chars_of(p);
    proof {
        assert(v@.take(v.len() as int) == v@);
        lemma_last_sep(v@);
    }
    match find_last_sep(&v) {
        Some(i) => string_of_range(&v, 0, i),
        None => String::new(),
    }
}

/// A basename is safe to join under the cache: not empty, not `.` or `..`,
/// and free of separators.
pub open spec fn safe_basename(s: Seq<char>) -> bool {
    &&& s.len() > 0
    &&& s != seq!['.']
    &&& s != seq!['.', '.']
    &&& forall|i: int| 0 <= i < s.len() ==> !is_path_sep(#[trigger] s[i])
}

/// Executable [`safe_basename`].
pub fn is_safe_basename(name: &str) -> (r: bool)
    ensures
        r == safe_basename(name@),
{
    let v = chars_of(name);
    if v.len() == 0 {
        return false;
    }
    if v.len() == 1 && v[0] == '.' {
        assert(v@ == seq!['.']);
        return false;
    }
    if v.len() == 2 && v[0] == '.' && v[1] == '.' {
        assert(v@ == seq!['.', '.']);
        return false;
    }
    let mut i: usize = 0;
    while i < v.len()
        invariant
            i <= v.len(),
            v@ == name@,
            forall|j: int| 0 <= j < i ==> !is_path_sep(#[trigger] v@[j]),
        decreases v.len() - i,
    {
        if v[i] == '/' || v[i] == '\\' {
            return false;
        }
        i = i + 1;
    }
    true
}

// ---------------------------------------------------------------------------
// JVM and client arguments
// ---------------------------------------------------------------------------

/// A JVM flag (already lowercased) that could run arbitrary code: an agent,
/// a boot class path, or a command to run on an error.
pub open spec fn dangerous_flag(lower: Seq<char>) -> bool {
    ||| starts_with(lower, "-javaagent:"@)
    ||| starts_with(lower, "-agentpath:"@)
    ||| starts_with(lower, "-agentlib:"@)
    ||| starts_with(lower, "-xbootclasspath"@)
    ||| starts_with(lower, "-xx:onoutofmemoryerror"@)
    ||| starts_with(lower, "-xx:onerror"@)
}

/// The words of `ws` whose lowercase form is not a [`dangerous_flag`], in order.
pub open spec fn safe_words(ws: Seq<Seq<char>>) -> Seq<Seq<char>>
    decreases ws.len(),
{
    if ws.len() == 0 {
        Seq::empty()
    } else {
        let rest = safe_words(ws.drop_last());
        if dangerous_flag(unicode_lowercase(ws.last())) {
            rest
        } else {
            rest.push(ws.last())
        }
    }
}

/// [`sanitize_vm_args`]: the safe words of `args`, joined by single spaces.
pub open spec fn safe_vm_args(args: Seq<char>) -> Seq<char> {
    join(safe_words(words(args)), " "@)
}

/// Whether `word` is a [`dangerous_flag`] once lowercased.
fn is_dangerous(word: &str) -> (r: bool)
    ensures
        r == dangerous_flag(unicode_lowercase(word@)),
{
    let l = chars_of(to_lowercase(word).as_str());
    vec_starts_with(&l, &chars_of("-javaagent:")) || vec_starts_with(&l, &chars_of("-agentpath:"))
        || vec_starts_with(&l, &chars_of("-agentlib:")) || vec_starts_with(
        &l,
        &chars_of("-xbootclasspath"),
    ) || vec_starts_with(&l, &chars_of("-xx:onoutofmemoryerror")) || vec_starts_with(
        &l,
        &chars_of("-xx:onerror"),
    )
}

/// Filters JVM arguments (from the JNLP or the connection) to drop flags
/// that could execute arbitrary code.
pub fn sanitize_vm_args(args: &str) -> (r: String)
    ensures
        r@ == safe_vm_args(args@),
{
    let ws = split_whitespace(&chars_of(args));
    let mut kept: Vec<String> = Vec::new();
    let mut i: usize = 0;
    while i < ws.len()
        invariant
            i <= ws.len(),
            views(kept@) == safe_words(views(ws@.take(i as int))),
        decreases ws.len() - i,
    {
        assert(views(ws@.take(i + 1)).drop_last() == views(ws@.take(i as int)));
        assert(views(ws@.take(i + 1)).last() == ws@[i as int]@);
        if !is_dangerous(ws[i].as_str()) {
            let w = ws[i].clone();
            kept.push(w);
            assert(views(kept@) == views(kept@.drop_last()).push(w@));
        }
        i = i + 1;
    }
    assert(ws@.take(ws.len() as int) == ws@);
    join_strings(&kept, " ")
}

/// The administrator's arguments: the JNLP arguments, then the username and,
/// only after a username, the password.
pub open spec fn client_args(
    jnlp: Seq<Seq<char>>,
    username: Option<Seq<char>>,
    password: Option<Seq<char>>,
) -> Seq<Seq<char>> {
    match username {
        Some(u) => match password {
            Some(p) => jnlp.push(u).push(p),
            None => jnlp.push(u),
        },
        None => jnlp,
    }
}

/// A copy of a vector of strings.
pub fn copy_strings(v: &Vec<String>) -> (r: Vec<String>)
    ensures
        views(r@) == views(v@),
{
    let mut r: Vec<String> = Vec::new();
    let mut i: usize = 0;
    while i < v.len()
        invariant
            i <= v.len(),
            views(r@) == views(v@.take(i as int)),
        decreases v.len() - i,
    {
        let s = v[i].clone();
        r.push(s);
        assert(views(r@) == views(r@.drop_last()).push(s@));
        assert(views(v@.take(i + 1)) == views(v@.take(i as int)).push(v@[i as int]@));
        i = i + 1;
    }
    assert(v@.take(v.len() as int) == v@);
    r
}

/// The administrator's argument list: every JNLP `<argument>` in document
/// order, then the optional username and password. The order is what lets
/// the client bind the credentials to their positions; a password without a
/// username is dropped, since it would take the username's place.
pub fn build_client_args(
    jnlp_args: &Vec<String>,
    username: Option<&str>,
    password: Option<&str>,
) -> (r: Vec<String>)
    ensures
        views(r@) == client_args(
            views(jnlp_args@),
            match username {
                Some(u) => Some(u@),
                None => None,
            },
            match password {
                Some(p) => Some(p@),
                None => None,
            },
        ),
{
    let mut args = copy_strings(jnlp_args);
    if let Some(u) = username {
        let us = owned(u);
        args.push(us);
        assert(views(args@) == views(args@.drop_last()).push(us@));
        if let Some(p) = password {
            let ps = owned(p);
            args.push(ps);
            assert(views(args@) == views(args@.drop_last()).push(ps@));
        }
    }
    args
}

// ---------------------------------------------------------------------------
// Cached jars
// ---------------------------------------------------------------------------

/// What the cache holds for one jar.
pub enum JarOnDisk {
    /// There is no file.
    Missing,
    /// A file exists but its content was not (or could not be) read.
    Unread,
    /// A file exists with this content.
    Contents(Vec<u8>),
}

/// `(needs_download, is_foreign)` for one cached jar: a missing file is
/// fetched; a file whose content cannot be compared (no declared hash, or
/// not read) is kept; a file whose digest differs from the declared one is
/// fetched again, and is evidence of another engine's files only when it is
/// a core jar.
pub open spec fn jar_class(on_disk: JarOnDisk, declared: Option<Seq<char>>, is_core: bool) -> (
    bool,
    bool,
) {
    match on_disk {
        JarOnDisk::Missing => (true, false),
        JarOnDisk::Unread => (false, false),
        JarOnDisk::Contents(b) => match declared {
            None => (false, false),
            Some(d) => {
                let differs = jar_digest(b@) != d;
                (differs, differs && is_core)
            },
        },
    }
}

/// Classifies one cached jar in a single digest computation; see
/// [`jar_class`].
pub fn classify_cached_jar(on_disk: &JarOnDisk, hash_in_jnlp: Option<&str>, is_core: bool) -> (r: (
    bool,
    bool,
))
    ensures
        r == jar_class(
            *on_disk,
            match hash_in_jnlp {
                Some(h) => Some(h@),
                None => None,
            },
            is_core,
        ),
{
    match on_disk {
        JarOnDisk::Missing => (true, false),
        JarOnDisk::Unread => (false, false),
        JarOnDisk::Contents(b) => match hash_in_jnlp {
            None => (false, false),
            Some(declared) => {
                let on_disk_digest = sha256_base64(b.as_slice());
                let differs = !crate::text::str_eq(on_disk_digest.as_str(), declared);
                (differs, differs && is_core)
            },
        },
    }
}

// ---------------------------------------------------------------------------
// Server addresses
// ---------------------------------------------------------------------------

/// The parts of a parsed URL that the launcher reads.
pub struct UrlParts {
    pub scheme: String,
    pub host: Option<String>,
    pub port: Option<u16>,
    pub path: String,
}

/// The mathematical value of [`UrlParts`].
pub struct UrlPartsView {
    pub scheme: Seq<char>,
    pub host: Option<Seq<char>>,
    pub port: Option<u16>,
    pub path: Seq<char>,
}

impl View for UrlParts {
    type V = UrlPartsView;

    open spec fn view(&self) -> UrlPartsView {
        UrlPartsView {
            scheme: self.scheme@,
            host: match self.host {
                Some(h) => Some(h@),
                None => None,
            },
            port: self.port,
            path: self.path@,
        }
    }
}

/// What `reqwest::Url::parse` (the `url` crate) makes of `text`: its scheme,
/// host, explicit non-default port and path, or `None` when it is not a URL.
pub uninterp spec fn parsed_url(text: Seq<char>) -> Option<UrlPartsView>;

/// Calls `reqwest::Url::parse` and reads `scheme()`, `host_str()`, `port()`
/// and `path()` of the result. A successful parse is named [`parsed_url`] of
/// the input; an error (carried as its message) comes exactly when that name
/// is `None`.
#[verifier::external_body]
pub(crate) fn parse_url(text: &str) -> (r: Result<UrlParts, String>)
    ensures
        match r {
            Ok(p) => parsed_url(text@) == Some(p@),
            Err(_) => parsed_url(text@) is None,
        },
{
    match reqwest::Url::parse(text) {
        Ok(u) => Ok(
            UrlParts {
                scheme: u.scheme().to_string(),
                host: u.host_str().map(|h| h.to_string()),
                port: u.port(),
                path: u.path().to_string(),
            },
        ),
        Err(e) => Err(e.to_string()),
    }
}

/// `s` followed by the `/`-prefixed segments of `segs`, one after another.
pub open spec fn slash_joined(segs: Seq<Seq<char>>) -> Seq<char> {
    if segs.len() == 0 {
        Seq::empty()
    } else {
        seq!['/'] + join(segs, "/"@)
    }
}

/// The address rebuilt from its parts: scheme, `://`, host, `:port` when
/// the port is explicit, then the non-empty path segments each after one
/// `/` (so no trailing slash and no empty segment).
pub open spec fn normalized_url(p: UrlPartsView) -> Seq<char> {
    p.scheme + "://"@ + (match p.host {
        Some(h) => h,
        None => Seq::empty(),
    }) + (match p.port {
        Some(n) => seq![':'] + decimal(n as nat),
        None => Seq::empty(),
    }) + slash_joined(segments(p.path))
}

/// Rebuilds an already parsed address in normal form; see [`normalized_url`].
pub fn normalize_url_parts(p: &UrlParts) -> (r: String)
    ensures
        r@ == normalized_url(p@),
{
    let mut r = p.scheme.clone();
    push_str(&mut r, "://");
    if let Some(h) = &p.host {
        push_str(&mut r, h.as_str());
    }
    if let Some(n) = p.port {
        r.push(':');
        let d = decimal_string(n as u64);
        push_str(&mut r, d.as_str());
    }
    let segs = split_segments(&chars_of(p.path.as_str()));
    if segs.len() > 0 {
        r.push('/');
        let j = join_strings(&segs, "/");
        push_str(&mut r, j.as_str());
    }
    proof {
        let host = match p@.host {
            Some(h) => h,
            None => Seq::<char>::empty(),
        };
        let port = match p@.port {
            Some(n) => seq![':'] + decimal(n as nat),
            None => Seq::<char>::empty(),
        };
        assert(r@ =~= p@.scheme + "://"@ + host + port + slash_joined(segments(p@.path)));
    }
    r
}

/// Parses `u` and rebuilds it in normal form (`https://h:8443//a///b/`
/// becomes `https://h:8443/a/b`); the error is the parser's message.
pub fn normalize_url(u: &str) -> (r: Result<String, String>)
    ensures
        match r {
            Ok(n) => parsed_url(u@) is Some && n@ == normalized_url(parsed_url(u@)->0),
            Err(_) => parsed_url(u@) is None,
        },
{
    let p = parse_url(u)?;
    Ok(normalize_url_parts(&p))
}

/// The last `/`-separated segment of `s` (all of it when it has no `/`).
pub open spec fn last_segment(s: Seq<char>) -> Seq<char>
    decreases s.len(),
{
    if s.len() == 0 {
        s
    } else if s.last() == '/' {
        Seq::empty()
    } else {
        last_segment(s.drop_last()).push(s.last())
    }
}

/// Whether a path's last segment names a JNLP file: longer than the
/// extension itself and ending in `.jnlp` in any ASCII case.
pub open spec fn names_jnlp_file(path: Seq<char>) -> bool {
    let seg = last_segment(path);
    seg.len() > 5 && eq_ignore_ascii_case(seg.skip(seg.len() - 5), ".jnlp"@)
}

/// The index of the last `/` in `s`, or -1.
pub open spec fn last_slash(s: Seq<char>) -> int
    decreases s.len(),
{
    if s.len() == 0 {
        -1
    } else if s.last() == '/' {
        s.len() - 1
    } else {
        last_slash(s.drop_last())
    }
}

/// The JNLP URL and the base for its hrefs, given an address already in
/// normal form and what parsing that address gives: an address naming a
/// `.jnlp` file is the JNLP itself and its directory is the base; any other
/// address is the base and `webstart.jnlp` under it is the JNLP.
pub open spec fn jnlp_and_base(normalized: Seq<char>, parsed: UrlPartsView) -> Option<
    (Seq<char>, Seq<char>),
> {
    if names_jnlp_file(parsed.path) {
        if last_slash(normalized) >= 0 {
            Some((normalized, normalized.take(last_slash(normalized))))
        } else {
            None
        }
    } else {
        Some((normalized + "/webstart.jnlp"@, normalized))
    }
}

/// The last segment of `v`, as characters.
fn last_segment_of(v: &Vec<char>) -> (r: Vec<char>)
    ensures
        r@ == last_segment(v@),
{
    let mut j: usize = v.len();
    assert(v@.take(j as int) == v@);
    let mut seg: Vec<char> = Vec::new();
    // Collect the tail backwards, then reverse it.
    while j > 0 && v[j - 1] != '/'
        invariant
            j <= v.len(),
            last_segment(v@) == last_segment(v@.take(j as int)) + seg@.reverse(),
        decreases j,
    {
        let ghost t = v@.take(j as int);
        assert(t.drop_last() == v@.take(j - 1));
        assert(t.last() == v@[j - 1]);
        let c = v[j - 1];
        seg.push(c);
        assert(seg@.reverse() == seq![c] + seg@.drop_last().reverse()) by {
            assert(seg@.reverse() =~= seq![c] + seg@.drop_last().reverse());
        }
        assert(last_segment(t) == last_segment(t.drop_last()).push(c));
        assert(last_segment(t.drop_last()).push(c) + seg@.drop_last().reverse()
            =~= last_segment(t.drop_last()) + (seq![c] + seg@.drop_last().reverse()));
        j = j - 1;
    }
    assert(last_segment(v@.take(j as int)) == Seq::<char>::empty()) by {
        if j > 0 {
            assert(v@.take(j as int).last() == v@[j - 1]);
        }
    }
    let mut r: Vec<char> = Vec::new();
    let mut k: usize = seg.len();
    while k > 0
        invariant
            k <= seg.len(),
            r@ == seg@.skip(k as int).reverse(),
        decreases k,
    {
        r.push(seg[k - 1]);
        assert(seg@.skip(k - 1).reverse() =~= seg@.skip(k as int).reverse().push(seg@[k - 1]));
        k = k - 1;
    }
    assert(seg@.skip(0) == seg@);
    assert(last_segment(v@) =~= r@);
    r
}

/// The index of the last `/` in `v`, if any.
fn find_last_slash(v: &Vec<char>) -> (r: Option<usize>)
    ensures
        match r {
            Some(i) => i < v@.len() && i == last_slash(v@),
            None => last_slash(v@) == -1,
        },
{
    let mut j: usize = v.len();
    assert(v@.take(j as int) == v@);
    while j > 0
        invariant
            j <= v.len(),
            last_slash(v@) == last_slash(v@.take(j as int)),
        decreases j,
    {
        assert(v@.take(j as int).last() == v@[j - 1]);
        assert(v@.take(j as int).drop_last() == v@.take(j - 1));
        if v[j - 1] == '/' {
            return Some(j - 1);
        }
        j = j - 1;
    }
    None
}

/// [`jnlp_and_base`] on executable values; the error names the one address
/// shape it cannot split.
pub fn split_parsed_jnlp_url(normalized: &str, parsed: &UrlParts) -> (r: Result<
    (String, String),
    String,
>)
    ensures
        match r {
            Ok((jnlp, base)) => jnlp_and_base(normalized@, parsed@) == Some((jnlp@, base@)),
            Err(_) => jnlp_and_base(normalized@, parsed@) is None,
        },
{
    let seg = last_segment_of(&chars_of(parsed.path.as_str()));
    let is_jnlp_file = seg.len() > 5 && {
        let mut tail: Vec<char> = Vec::new();
        let mut i: usize = seg.len() - 5;
        while i < seg.len()
            invariant
                seg.len() > 5,
                seg.len() - 5 <= i <= seg.len(),
                tail@ == seg@.subrange(seg.len() - 5, i as int),
            decreases seg.len() - i,
        {
            tail.push(seg[i]);
            assert(seg@.subrange(seg.len() - 5, i + 1) == seg@.subrange(seg.len() - 5, i as int).push(seg@[i as int]));
            i = i + 1;
        }
        assert(tail@ == seg@.skip(seg.len() - 5));
        vec_eq_ignore_ascii_case(&tail, &chars_of(".jnlp"))
    };
    let nv = chars_of(normalized);
    if is_jnlp_file {
        match find_last_slash(&nv) {
            Some(cut) => {
                let base = string_of_range(&nv, 0, cut);
                Ok((owned(normalized), base))
            },
            None => Err(owned("internal error: jnlp address has no path separator")),
        }
    } else {
        let mut jnlp = owned(normalized);
        push_str(&mut jnlp, "/webstart.jnlp");
        Ok((jnlp, owned(normalized)))
    }
}

/// Splits a connection address into the JNLP URL to fetch and the base URL
/// its hrefs resolve against. An address whose path names a `.jnlp` file is
/// used as given; anything else gets `webstart.jnlp` appended.
pub fn split_jnlp_url(address: &str) -> (r: Result<(String, String), String>)
    ensures
        match r {
            Ok((jnlp, base)) => parsed_url(address@) is Some && ({
                let n = normalized_url(parsed_url(address@)->0);
                parsed_url(n) is Some && jnlp_and_base(n, parsed_url(n)->0) == Some((jnlp@, base@))
            }),
            Err(_) => parsed_url(address@) is None || ({
                let n = normalized_url(parsed_url(address@)->0);
                parsed_url(n) is None || jnlp_and_base(n, parsed_url(n)->0) is None
            }),
        },
{
    let normalized = normalize_url(address)?;
    let parsed = parse_url(normalized.as_str())?;
    split_parsed_jnlp_url(normalized.as_str(), &parsed)
}

// ---------------------------------------------------------------------------
// Reading a JNLP document
// ---------------------------------------------------------------------------

/// A `<j2se>` resource: the JVM arguments it asks for and the Java version
/// they are for.
pub struct J2se {
    pub java_vm_args: Option<String>,
    pub version: String,
}

/// The mathematical value of a [`J2se`].
pub struct J2seView {
    pub java_vm_args: Option<Seq<char>>,
    pub version: Seq<char>,
}

impl View for J2se {
    type V = J2seView;

    open spec fn view(&self) -> J2seView {
        J2seView {
            java_vm_args: match self.java_vm_args {
                Some(a) => Some(a@),
                None => None,
            },
            version: self.version@,
        }
    }
}

/// The views of a list of `<j2se>` resources.
pub open spec fn j2se_views(v: Seq<J2se>) -> Seq<J2seView> {
    v.map_values(|j: J2se| j@)
}

/// The texts of the nodes in `[r, upto)` that lie under `r`, are tagged
/// `name` and have text, in document order.
pub open spec fn tagged_texts(ns: Seq<NodeView>, r: int, name: Seq<char>, upto: int) -> Seq<
    Seq<char>,
>
    decreases upto - r,
{
    if upto <= r {
        Seq::empty()
    } else {
        let rest = tagged_texts(ns, r, name, upto - 1);
        let j = upto - 1;
        if under(ns, j, r) && has_tag(ns[j], name) && ns[j].text is Some {
            rest.push(ns[j].text->0)
        } else {
            rest
        }
    }
}

/// The `<j2se>` resources in `[r, upto)` under `r` that carry both a
/// `java-vm-args` and a `version` attribute, in document order.
pub open spec fn j2se_resources(ns: Seq<NodeView>, r: int, upto: int) -> Seq<J2seView>
    decreases upto - r,
{
    if upto <= r {
        Seq::empty()
    } else {
        let rest = j2se_resources(ns, r, upto - 1);
        let j = upto - 1;
        let args = attr_value(ns[j].attributes, "java-vm-args"@);
        let version = attr_value(ns[j].attributes, "version"@);
        if under(ns, j, r) && has_tag(ns[j], "j2se"@) && args is Some && version is Some {
            rest.push(J2seView { java_vm_args: args, version: version->0 })
        } else {
            rest
        }
    }
}

/// The administrator's arguments declared under node `r` (the
/// `application-desc`): the text of every `<argument>`, in document order.
pub fn get_client_args(nodes: &Vec<XmlNode>, r: usize) -> (out: Vec<String>)
    ensures
        views(out@) == tagged_texts(node_views(nodes@), r as int, "argument"@, nodes@.len() as int),
{
    let ghost ns = node_views(nodes@);
    let mut out: Vec<String> = Vec::new();
    if r >= nodes.len() {
        return out;
    }
    let mut j: usize = r;
    while j < nodes.len()
        invariant
            r <= j <= nodes.len(),
            ns == node_views(nodes@),
            views(out@) == tagged_texts(ns, r as int, "argument"@, j as int),
        decreases nodes.len() - j,
    {
        assert(ns[j as int] == nodes@[j as int]@);
        if is_under(nodes, j, r) && node_has_tag(&nodes[j], "argument") {
            if let Some(t) = &nodes[j].text {
                let c = t.clone();
                out.push(c);
                assert(views(out@) == views(out@.drop_last()).push(c@));
            }
        }
        j = j + 1;
    }
    out
}

/// The `<j2se>` resources under node `r` (the `resources` element) that
/// carry both attributes, or `None` when there are none.
pub fn get_j2ses(nodes: &Vec<XmlNode>, r: usize) -> (res: Option<Vec<J2se>>)
    ensures
        match res {
            Some(v) => v@.len() > 0 && j2se_views(v@) == j2se_resources(
                node_views(nodes@),
                r as int,
                nodes@.len() as int,
            ),
            None => j2se_resources(node_views(nodes@), r as int, nodes@.len() as int).len() == 0,
        },
{
    let ghost ns = node_views(nodes@);
    let mut out: Vec<J2se> = Vec::new();
    if r >= nodes.len() {
        return None;
    }
    let mut j: usize = r;
    while j < nodes.len()
        invariant
            r <= j <= nodes.len(),
            ns == node_views(nodes@),
            j2se_views(out@) == j2se_resources(ns, r as int, j as int),
        decreases nodes.len() - j,
    {
        assert(ns[j as int] == nodes@[j as int]@);
        if is_under(nodes, j, r) && node_has_tag(&nodes[j], "j2se") {
            match (attribute(&nodes[j], "java-vm-args"), attribute(&nodes[j], "version")) {
                (Some(a), Some(v)) => {
                    let item = J2se { java_vm_args: Some(a.clone()), version: v.clone() };
                    out.push(item);
                    assert(j2se_views(out@) == j2se_views(out@.drop_last()).push(item@));
                },
                _ => {},
            }
        }
        j = j + 1;
    }
    if out.len() == 0 {
        None
    } else {
        Some(out)
    }
}

/// What the launcher takes from the server's JNLP.
pub struct Jnlp {
    /// The `main-class` of the `<application-desc>`.
    pub main_class: String,
    /// Its `<argument>` texts, in document order.
    pub args: Vec<String>,
    /// The index of the first `<resources>` element, if any.
    pub resources: Option<usize>,
    /// The `version` of `<jnlp>` (`default` when absent), as given.
    pub version: String,
    /// The same with `/`, `\` and `.` replaced by `_`, for a directory name.
    pub version_dir: String,
}

/// The error when the document has no `<application-desc>`.
pub open spec fn no_app_desc_msg() -> Seq<char> {
    "Got something from MC that was not an application-desc node in a JNLP XML"@
}

/// The error when the `<application-desc>` has no `main-class`.
pub open spec fn no_main_class_msg() -> Seq<char> {
    "missing main-class attribute"@
}

/// A version with `/`, `\` and `.` replaced by `_`.
pub open spec fn version_dir_name(v: Seq<char>) -> Seq<char> {
    v.map_values(|c: char| if c == '/' || c == '\\' || c == '.' { '_' } else { c })
}

/// The `version` attribute of the first `<jnlp>`, or `default`.
pub open spec fn jnlp_version(ns: Seq<NodeView>) -> Seq<char> {
    match find_tagged(ns, 0, "jnlp"@) {
        Some(j) => match attr_value(ns[j].attributes, "version"@) {
            Some(v) => v,
            None => "default"@,
        },
        None => "default"@,
    }
}

/// Executable [`version_dir_name`].
fn version_dir(v: &str) -> (r: String)
    ensures
        r@ == version_dir_name(v@),
{
    let cs = chars_of(v);
    let mut r = String::new();
    let mut i: usize = 0;
    while i < cs.len()
        invariant
            i <= cs.len(),
            cs@ == v@,
            r@ == version_dir_name(cs@.take(i as int)),
        decreases cs.len() - i,
    {
        let c = cs[i];
        let d = if c == '/' || c == '\\' || c == '.' {
            '_'
        } else {
            c
        };
        r.push(d);
        assert(version_dir_name(cs@.take(i + 1)) == version_dir_name(cs@.take(i as int)).push(d));
        i = i + 1;
    }
    assert(cs@.take(cs.len() as int) == cs@);
    r
}

/// What reading the launch description from the nodes `ns` gives: the main
/// class and arguments of the first `<application-desc>`, the first
/// `<resources>`, and the `<jnlp>` version; or the error for a missing
/// `<application-desc>` or `main-class`.
pub open spec fn jnlp_read(ns: Seq<NodeView>, r: Result<Jnlp, String>) -> bool {
    match find_tagged(ns, 0, "application-desc"@) {
        None => r matches Err(e) && e@ == no_app_desc_msg(),
        Some(a) => match attr_value(ns[a].attributes, "main-class"@) {
            None => r matches Err(e) && e@ == no_main_class_msg(),
            Some(mc) => r matches Ok(j) && j.main_class@ == mc && views(j.args@) == tagged_texts(
                ns,
                a,
                "argument"@,
                ns.len() as int,
            ) && (match j.resources {
                Some(i) => find_tagged(ns, 0, "resources"@) == Some(i as int),
                None => find_tagged(ns, 0, "resources"@) is None,
            }) && j.version@ == jnlp_version(ns) && j.version_dir@ == version_dir_name(
                jnlp_version(ns),
            ),
        },
    }
}

/// Reads the launch description from a parsed JNLP document (`nodes[0]` is
/// its root).
pub fn read_jnlp(nodes: &Vec<XmlNode>) -> (r: Result<Jnlp, String>)
    ensures
        jnlp_read(node_views(nodes@), r),
{
    let app = match get_node(nodes, 0, "application-desc") {
        Some(a) => a,
        None => {
            return Err(owned(
                "Got something from MC that was not an application-desc node in a JNLP XML",
            ));
        },
    };
    let main_class = match attribute(&nodes[app], "main-class") {
        Some(m) => m.clone(),
        None => {
            return Err(owned("missing main-class attribute"));
        },
    };
    let args = get_client_args(nodes, app);
    let resources = get_node(nodes, 0, "resources");
    let version = match get_node(nodes, 0, "jnlp") {
        Some(j) => match attribute(&nodes[j], "version") {
            Some(v) => v.clone(),
            None => owned("default"),
        },
        None => owned("default"),
    };
    let version_dir = version_dir(version.as_str());
    Ok(Jnlp { main_class, args, resources, version, version_dir })
}

/// A JNLP document: its nodes and the launch description read from them.
pub struct JnlpDocument {
    pub nodes: Vec<XmlNode>,
    pub jnlp: Jnlp,
}

/// Parses the text of the server's JNLP and reads its launch description.
/// Text that is not well-formed XML is an error (the parser's message).
pub fn parse_jnlp(text: &str) -> (r: Result<JnlpDocument, String>)
    ensures
        match xml_nodes(text@) {
            None => r is Err,
            Some(ns) => match r {
                Ok(d) => node_views(d.nodes@) == ns && jnlp_read(ns, Ok(d.jnlp)),
                Err(e) => jnlp_read(ns, Err(e)),
            },
        },
{
    let nodes = parse_xml(text)?;
    let jnlp = read_jnlp(&nodes)?;
    Ok(JnlpDocument { nodes, jnlp })
}

// ---------------------------------------------------------------------------
// Jar collection
// ---------------------------------------------------------------------------

/// One jar to have in the cache: where it is fetched from, which folder of
/// the cache it goes in (`core`, or `extensions/<name>` for an extension's
/// jar), its file name, the digest the JNLP declares for it, and whether it
/// is a core (engine) jar.
pub struct JarTask {
    pub url: String,
    pub extension: Option<String>,
    pub file_name: String,
    pub hash: Option<String>,
    pub is_core: bool,
}

/// The mathematical value of a [`JarTask`].
pub struct JarTaskView {
    pub url: Seq<char>,
    pub extension: Option<Seq<char>>,
    pub file_name: Seq<char>,
    pub hash: Option<Seq<char>>,
    pub is_core: bool,
}

impl View for JarTask {
    type V = JarTaskView;

    open spec fn view(&self) -> JarTaskView {
        JarTaskView {
            url: self.url@,
            extension: match self.extension {
                Some(e) => Some(e@),
                None => None,
            },
            file_name: self.file_name@,
            hash: match self.hash {
                Some(h) => Some(h@),
                None => None,
            },
            is_core: self.is_core,
        }
    }
}

/// A `<jar>` or `<extension>` child of a `<resources>` element.
pub enum ResourceItem {
    Jar(JarTask),
    /// An extension JNLP to fetch from `url`; its jars go in the folder
    /// `name` and its hrefs resolve against `base_url`.
    Extension { url: String, name: String, base_url: String },
}

/// The mathematical value of a [`ResourceItem`].
pub enum ItemView {
    Jar(JarTaskView),
    Extension { url: Seq<char>, name: Seq<char>, base_url: Seq<char> },
}

impl View for ResourceItem {
    type V = ItemView;

    open spec fn view(&self) -> ItemView {
        match self {
            ResourceItem::Jar(t) => ItemView::Jar(t@),
            ResourceItem::Extension { url, name, base_url } => ItemView::Extension {
                url: url@,
                name: name@,
                base_url: base_url@,
            },
        }
    }
}

/// The views of a list of items.
pub open spec fn item_views(v: Seq<ResourceItem>) -> Seq<ItemView> {
    v.map_values(|i: ResourceItem| i@)
}

/// The views of a list of jar tasks.
pub open spec fn task_views(v: Seq<JarTask>) -> Seq<JarTaskView> {
    v.map_values(|t: JarTask| t@)
}

/// `s` without the suffix `suf` when it ends with it.
pub open spec fn strip_suffix(s: Seq<char>, suf: Seq<char>) -> Seq<char> {
    if ends_with(s, suf) {
        s.take(s.len() - suf.len())
    } else {
        s
    }
}

/// What one child `n` of a `<resources>` element contributes, for jars that
/// go in folder `ext` and hrefs resolved against `base`: a `<jar>` or
/// `<extension>` with an `href` whose file name is a safe basename; nothing
/// for anything else.
pub open spec fn item_of(n: NodeView, base: Seq<char>, ext: Option<Seq<char>>, is_core: bool) -> Option<
    ItemView,
> {
    let href = attr_value(n.attributes, "href"@);
    if !(has_tag(n, "jar"@) || has_tag(n, "extension"@)) || href is None {
        None
    } else {
        let h = href->0;
        let url = base + "/"@ + h;
        let name = file_name_of(h);
        if !safe_basename(name) {
            None
        } else if has_tag(n, "jar"@) {
            Some(
                ItemView::Jar(
                    JarTaskView {
                        url,
                        extension: ext,
                        file_name: name,
                        hash: attr_value(n.attributes, "sha256"@),
                        is_core,
                    },
                ),
            )
        } else {
            Some(
                ItemView::Extension {
                    url,
                    name: strip_suffix(name, ".jnlp"@),
                    base_url: if dir_of(h).len() == 0 {
                        base
                    } else {
                        base + "/"@ + dir_of(h)
                    },
                },
            )
        }
    }
}

/// The items of the children (in `(r, upto)`) of node `r`, in document order.
pub open spec fn level_items(
    ns: Seq<NodeView>,
    r: int,
    base: Seq<char>,
    ext: Option<Seq<char>>,
    is_core: bool,
    upto: int,
) -> Seq<ItemView>
    decreases upto - r,
{
    if upto <= r + 1 {
        Seq::empty()
    } else {
        let rest = level_items(ns, r, base, ext, is_core, upto - 1);
        let j = upto - 1;
        if ns[j].parent == Some(r as usize) && item_of(ns[j], base, ext, is_core) is Some {
            rest.push(item_of(ns[j], base, ext, is_core)->0)
        } else {
            rest
        }
    }
}

/// Executable [`item_of`].
fn resource_item(n: &XmlNode, base: &str, ext: &Option<String>, is_core: bool) -> (r: Option<
    ResourceItem,
>)
    ensures
        match r {
            Some(it) => item_of(
                n@,
                base@,
                match ext {
                    Some(e) => Some(e@),
                    None => None,
                },
                is_core,
            ) == Some(it@),
            None => item_of(
                n@,
                base@,
                match ext {
                    Some(e) => Some(e@),
                    None => None,
                },
                is_core,
            ) is None,
        },
{
    let jar = node_has_tag(n, "jar");
    let extension = node_has_tag(n, "extension");
    if !jar && !extension {
        return None;
    }
    let href = match attribute(n, "href") {
        Some(h) => h,
        None => {
            return None;
        },
    };
    let mut url = owned(base);
    push_str(&mut url, "/");
    push_str(&mut url, href.as_str());
    let name = get_file_name_from_path(href.as_str());
    if !is_safe_basename(name.as_str()) {
        return None;
    }
    if jar {
        let hash = match attribute(n, "sha256") {
            Some(h) => Some(h.clone()),
            None => None,
        };
        let folder = match ext {
            Some(e) => Some(e.clone()),
            None => None,
        };
        Some(ResourceItem::Jar(JarTask { url, extension: folder, file_name: name, hash, is_core }))
    } else {
        let nv = chars_of(name.as_str());
        let suffix = chars_of(".jnlp");
        let ends = nv.len() >= suffix.len() && {
            let mut ok = true;
            let mut i: usize = 0;
            while i < suffix.len()
                invariant
                    nv.len() >= suffix.len(),
                    i <= suffix.len(),
                    ok == (forall|k: int| 0 <= k < i ==> nv@[nv.len() - suffix.len() + k] == suffix@[k]),
                decreases suffix.len() - i,
            {
                ok = ok && nv[nv.len() - suffix.len() + i] == suffix[i];
                i = i + 1;
            }
            assert(ok == (nv@.skip(nv.len() - suffix.len()) == suffix@)) by {
                if ok {
                    assert(nv@.skip(nv.len() - suffix.len()) =~= suffix@);
                } else if nv@.skip(nv.len() - suffix.len()) == suffix@ {
                    assert forall|k: int| 0 <= k < suffix.len() implies nv@[nv.len() - suffix.len()
                        + k] == suffix@[k] by {
                        assert(nv@.skip(nv.len() - suffix.len())[k] == nv@[nv.len() - suffix.len() + k]);
                    }
                }
            }
            ok
        };
        let dir_name = if ends {
            string_of_range(&nv, 0, nv.len() - suffix.len())
        } else {
            name
        };
        let dir = get_dir_from_path(href.as_str());
        let mut ext_base = owned(base);
        if !dir.as_str().is_empty() {
            push_str(&mut ext_base, "/");
            push_str(&mut ext_base, dir.as_str());
        }
        Some(ResourceItem::Extension { url, name: dir_name, base_url: ext_base })
    }
}

/// The items of the children of node `r` (a `<resources>` element), in
/// document order; see [`item_of`].
pub fn collect_level(
    nodes: &Vec<XmlNode>,
    r: usize,
    base_url: &str,
    extension: &Option<String>,
    is_core: bool,
) -> (out: Vec<ResourceItem>)
    ensures
        item_views(out@) == level_items(
            node_views(nodes@),
            r as int,
            base_url@,
            match extension {
                Some(e) => Some(e@),
                None => None,
            },
            is_core,
            nodes@.len() as int,
        ),
{
    let ghost ns = node_views(nodes@);
    let ghost ext = match extension {
        Some(e) => Some(e@),
        None => None,
    };
    let mut out: Vec<ResourceItem> = Vec::new();
    if r >= nodes.len() {
        return out;
    }
    let mut j: usize = r + 1;
    while j < nodes.len()
        invariant
            r < j <= nodes.len(),
            ns == node_views(nodes@),
            ext == (match extension {
                Some(e) => Some(e@),
                None => None,
            }),
            item_views(out@) == level_items(ns, r as int, base_url@, ext, is_core, j as int),
        decreases nodes.len() - j,
    {
        assert(ns[j as int] == nodes@[j as int]@);
        let is_child = match nodes[j].parent {
            Some(p) => p == r,
            None => false,
        };
        if is_child {
            if let Some(it) = resource_item(&nodes[j], base_url, extension, is_core) {
                out.push(it);
                assert(item_views(out@) == item_views(out@.drop_last()).push(it@));
            }
        }
        j = j + 1;
    }
    out
}

/// What the collector needs done next.
pub enum CollectStep {
    /// Fetch the extension JNLP at `url` (creating the folder `name` for its
    /// jars) and hand its text to [`JarCollector::extension_text_fetched`].
    Fetch { url: String, name: String },
    /// Every jar has been collected.
    Done,
}

/// A pending extension: the folder its jars go in and the base its hrefs
/// resolve against.
pub struct PendingExtension {
    pub name: String,
    pub base_url: String,
}

/// Walks the `<resources>` of a JNLP depth-first, in document order: the
/// core jars first, and each extension's jars where the extension is
/// declared. Fetching an extension is the caller's part.
pub struct JarCollector {
    tasks: Vec<JarTask>,
    levels: Vec<Vec<ResourceItem>>,
    pending: Option<PendingExtension>,
}

/// The number of steps left: every pending item, and every level.
pub open spec fn work_left(levels: Seq<Seq<ItemView>>) -> nat
    decreases levels.len(),
{
    if levels.len() == 0 {
        0
    } else {
        work_left(levels.drop_last()) + levels.last().len() + 1
    }
}

/// Runs the collection until it needs an extension fetched or is done: the
/// tasks, the levels still to walk, and the extension to fetch (its url,
/// folder and base), if any.
pub open spec fn run_to_fetch(tasks: Seq<JarTaskView>, levels: Seq<Seq<ItemView>>) -> (
    Seq<JarTaskView>,
    Seq<Seq<ItemView>>,
    Option<(Seq<char>, Seq<char>, Seq<char>)>,
)
    decreases work_left(levels),
{
    if levels.len() == 0 {
        (tasks, levels, None)
    } else if levels.last().len() == 0 {
        run_to_fetch(tasks, levels.drop_last())
    } else {
        let top = levels.last();
        let rest = levels.drop_last().push(top.drop_first());
        proof {
            assert(rest.drop_last() == levels.drop_last());
        }
        match top[0] {
            ItemView::Jar(t) => run_to_fetch(tasks.push(t), rest),
            ItemView::Extension { url, name, base_url } => (tasks, rest, Some((url, name, base_url))),
        }
    }
}

impl JarCollector {
    /// The jars collected so far, in order.
    pub closed spec fn tasks_view(&self) -> Seq<JarTaskView> {
        task_views(self.tasks@)
    }

    /// The items still to walk, innermost level last.
    pub closed spec fn levels_view(&self) -> Seq<Seq<ItemView>> {
        self.levels@.map_values(|l: Vec<ResourceItem>| item_views(l@))
    }

    /// The extension whose nodes are awaited: its folder and base.
    pub closed spec fn pending_view(&self) -> Option<(Seq<char>, Seq<char>)> {
        match self.pending {
            Some(p) => Some((p.name@, p.base_url@)),
            None => None,
        }
    }

    /// Starts a collection at the `<resources>` element `resources` of the
    /// server's JNLP: its jars are core jars and its hrefs resolve against
    /// `base_url`.
    pub fn new(nodes: &Vec<XmlNode>, resources: usize, base_url: &str) -> (c: JarCollector)
        ensures
            c.tasks_view() == Seq::<JarTaskView>::empty(),
            c.levels_view() == seq![
                level_items(node_views(nodes@), resources as int, base_url@, None, true, nodes@.len() as int),
            ],
            c.pending_view() is None,
    {
        let items = collect_level(nodes, resources, base_url, &None, true);
        let mut levels: Vec<Vec<ResourceItem>> = Vec::new();
        levels.push(items);
        let c = JarCollector { tasks: Vec::new(), levels, pending: None };
        proof {
            assert(c.levels_view() =~= seq![item_views(items@)]);
            assert(c.tasks_view() =~= Seq::<JarTaskView>::empty());
        }
        c
    }

    /// Collects jars until an extension must be fetched, or to the end.
    pub fn next(&mut self) -> (step: CollectStep)
        ensures
            ({
                let (t, l, f) = run_to_fetch(old(self).tasks_view(), old(self).levels_view());
                &&& final(self).tasks_view() == t
                &&& final(self).levels_view() == l
                &&& match f {
                    Some((url, name, base)) => step matches CollectStep::Fetch { url: u, name: n }
                        && u@ == url && n@ == name && final(self).pending_view() == Some((name, base)),
                    None => step is Done && final(self).pending_view() is None,
                }
            }),
    {
        let ghost goal = run_to_fetch(self.tasks_view(), self.levels_view());
        loop
            invariant
                goal == run_to_fetch(old(self).tasks_view(), old(self).levels_view()),
                run_to_fetch(self.tasks_view(), self.levels_view()) == goal,
            decreases work_left(self.levels_view()),
        {
            let ghost lv = self.levels_view();
            let n = self.levels.len();
            if n == 0 {
                self.pending = None;
                return CollectStep::Done;
            }
            assert(lv.last() == item_views(self.levels@[n - 1]@));
            if self.levels[n - 1].len() == 0 {
                self.levels.pop();
                proof {
                    assert(self.levels_view() =~= lv.drop_last());
                }
                continue;
            }
            let mut top = self.levels.pop().unwrap();
            let ghost top0 = item_views(top@);
            let item = top.remove(0);
            proof {
                assert(item_views(top@) =~= top0.drop_first());
                assert(top0[0] == item@);
            }
            self.levels.push(top);
            proof {
                let nl = lv.drop_last().push(top0.drop_first());
                assert(self.levels_view() =~= nl);
                assert(nl.drop_last() =~= lv.drop_last());
                assert(work_left(nl) < work_left(lv));
            }
            match item {
                ResourceItem::Jar(t) => {
                    let ghost tv = self.tasks_view();
                    self.tasks.push(t);
                    proof {
                        assert(self.tasks_view() =~= tv.push(t@));
                    }
                },
                ResourceItem::Extension { url, name, base_url } => {
                    let step_name = name.clone();
                    self.pending = Some(PendingExtension { name, base_url });
                    return CollectStep::Fetch { url, name: step_name };
                },
            }
        }
    }

    /// Hands over the parsed nodes of the extension JNLP that [`Self::next`]
    /// asked for: the children of its first `<resources>` become the next
    /// level to walk, as extension jars (not core) in the extension's folder
    /// with hrefs resolved against the extension's own directory. Nothing is
    /// added when no extension is awaited or it has no `<resources>`.
    pub fn extension_fetched(&mut self, nodes: &Vec<XmlNode>)
        ensures
            final(self).tasks_view() == old(self).tasks_view(),
            final(self).pending_view() is None,
            match old(self).pending_view() {
                Some((name, base)) => match find_tagged(node_views(nodes@), 0, "resources"@) {
                    Some(r) => final(self).levels_view() == old(self).levels_view().push(
                        level_items(node_views(nodes@), r, base, Some(name), false, nodes@.len() as int),
                    ),
                    None => final(self).levels_view() == old(self).levels_view(),
                },
                None => final(self).levels_view() == old(self).levels_view(),
            },
    {
        let pending = self.pending.take();
        if let Some(p) = pending {
            if let Some(r) = get_node(nodes, 0, "resources") {
                let ext = Some(p.name);
                let items = collect_level(nodes, r, p.base_url.as_str(), &ext, false);
                let ghost lv = self.levels_view();
                self.levels.push(items);
                proof {
                    assert(self.levels_view() =~= lv.push(item_views(items@)));
                }
            }
        }
    }

    /// Parses the text of the extension JNLP that [`Self::next`] asked for
    /// and hands its nodes over as [`Self::extension_fetched`] does. Text
    /// that is not well-formed XML is an error, and the collector is then
    /// unchanged.
    pub fn extension_text_fetched(&mut self, text: &str) -> (r: Result<(), String>)
        ensures
            match xml_nodes(text@) {
                None => r is Err && *final(self) == *old(self),
                Some(ns) => r is Ok && final(self).tasks_view() == old(self).tasks_view()
                    && final(self).pending_view() is None && match old(self).pending_view() {
                    Some((name, base)) => match find_tagged(ns, 0, "resources"@) {
                        Some(k) => final(self).levels_view() == old(self).levels_view().push(
                            level_items(ns, k, base, Some(name), false, ns.len() as int),
                        ),
                        None => final(self).levels_view() == old(self).levels_view(),
                    },
                    None => final(self).levels_view() == old(self).levels_view(),
                },
            },
    {
        let nodes = parse_xml(text)?;
        self.extension_fetched(&nodes);
        Ok(())
    }

    /// The jars collected, in order.
    pub fn into_tasks(self) -> (r: Vec<JarTask>)
        ensures
            task_views(r@) == self.tasks_view(),
    {
        self.tasks
    }
}

// ---------------------------------------------------------------------------
// Deciding what to download
// ---------------------------------------------------------------------------

/// Returned when the cache directory for this engine type and version
/// already holds core jars whose content differs from what the server's
/// JNLP declares: a given engine version always ships the same core jars,
/// so this means another engine's files share the directory.
pub struct CacheMismatch {
    pub engine_type: String,
    pub version: String,
    /// File names of the differing core jars, sorted.
    pub jars: Vec<String>,
}

impl CacheMismatch {
    /// The text shown for the mismatch.
    pub open spec fn message_text(&self) -> Seq<char> {
        "cache for "@ + self.engine_type@ + " "@ + self.version@ + " holds "@ + decimal(
            self.jars@.len(),
        ) + " file(s) that differ from this server"@
    }

    /// The mismatch as text, e.g. `cache for oie 4_6_0 holds 2 file(s) that
    /// differ from this server`.
    pub fn message(&self) -> (r: String)
        ensures
            r@ == self.message_text(),
    {
        let mut r = owned("cache for ");
        push_str(&mut r, self.engine_type.as_str());
        push_str(&mut r, " ");
        push_str(&mut r, self.version.as_str());
        push_str(&mut r, " holds ");
        let n = decimal_string(self.jars.len() as u64);
        push_str(&mut r, n.as_str());
        push_str(&mut r, " file(s) that differ from this server");
        proof {
            assert(r@ =~= self.message_text());
        }
        r
    }
}

/// The indices (in order) of the tasks whose classification says they need
/// downloading.
pub open spec fn download_indices(classes: Seq<(bool, bool)>, upto: int) -> Seq<usize>
    decreases upto,
{
    if upto <= 0 {
        Seq::empty()
    } else {
        let rest = download_indices(classes, upto - 1);
        if classes[upto - 1].0 {
            rest.push((upto - 1) as usize)
        } else {
            rest
        }
    }
}

/// The file names (in task order) of the jars classified as foreign.
pub open spec fn foreign_names(tasks: Seq<JarTaskView>, classes: Seq<(bool, bool)>, upto: int) -> Seq<
    Seq<char>,
>
    decreases upto,
{
    if upto <= 0 {
        Seq::empty()
    } else {
        let rest = foreign_names(tasks, classes, upto - 1);
        if classes[upto - 1].1 {
            rest.push(tasks[upto - 1].file_name)
        } else {
            rest
        }
    }
}

/// Decides, from each task's [`classify_cached_jar`] result, which jars to
/// download. When some core jars are foreign and the operator has not
/// acknowledged it, the launch stops with a [`CacheMismatch`] listing them
/// (sorted); otherwise the indices of the jars to download, in order.
pub fn plan_downloads(
    tasks: &Vec<JarTask>,
    classes: &Vec<(bool, bool)>,
    acknowledge_cache_mismatch: bool,
    engine_type: &str,
    version: &str,
) -> (r: Result<Vec<usize>, CacheMismatch>)
    requires
        classes@.len() == tasks@.len(),
    ensures
        ({
            let foreign = foreign_names(task_views(tasks@), classes@, tasks@.len() as int);
            if !acknowledge_cache_mismatch && foreign.len() > 0 {
                r matches Err(m) && m.engine_type@ == engine_type@ && m.version@ == version@
                    && sorted_seqs(views(m.jars@)) && views(m.jars@).to_multiset()
                    == foreign.to_multiset()
            } else {
                r matches Ok(idx) && idx@ == download_indices(classes@, tasks@.len() as int)
            }
        }),
{
    let ghost tv = task_views(tasks@);
    let mut to_download: Vec<usize> = Vec::new();
    let mut foreign: Vec<String> = Vec::new();
    let mut i: usize = 0;
    while i < tasks.len()
        invariant
            i <= tasks@.len(),
            classes@.len() == tasks@.len(),
            tv == task_views(tasks@),
            to_download@ == download_indices(classes@, i as int),
            views(foreign@) == foreign_names(tv, classes@, i as int),
        decreases tasks.len() - i,
    {
        let (needs, is_foreign) = classes[i];
        if needs {
            to_download.push(i);
        }
        if is_foreign {
            let nm = tasks[i].file_name.clone();
            foreign.push(nm);
            proof {
                assert(tv[i as int] == tasks@[i as int]@);
                assert(views(foreign@) == views(foreign@.drop_last()).push(nm@));
            }
        }
        i = i + 1;
    }
    if !acknowledge_cache_mismatch && foreign.len() > 0 {
        return Err(
            CacheMismatch {
                engine_type: owned(engine_type),
                version: owned(version),
                jars: sort_strings(foreign),
            },
        );
    }
    Ok(to_download)
}

/// Whether the check pass reports progress after classifying task `i` of
/// `total`: every 25 tasks, and on the last one.
pub open spec fn reports_check_progress(i: nat, total: nat) -> bool {
    (i % 25 == 0 && i > 0) || i + 1 == total
}

/// Executable [`reports_check_progress`].
pub fn report_check_progress(i: usize, total: usize) -> (r: bool)
    ensures
        r == reports_check_progress(i as nat, total as nat),
{
    (i % 25 == 0 && i > 0) || (i < usize::MAX && i + 1 == total)
}

// ---------------------------------------------------------------------------
// Where the jars live
// ---------------------------------------------------------------------------

/// The folder (under `<cache>/_isolated`) of a connection that does not
/// share its cache: its id sanitized as a path component, or `_` when that
/// leaves nothing, so that the folder is never `_isolated` itself. (No
/// sanitized id is `_`, since none ends with `_`.)
pub open spec fn isolated_folder(id: Seq<char>) -> Seq<char> {
    if path_component(id).len() == 0 {
        "_"@
    } else {
        path_component(id)
    }
}

/// Executable [`isolated_folder`]: never empty, and free of `/`, `\` and
/// `.`.
pub fn isolated_folder_name(id: &str) -> (r: String)
    ensures
        r@ == isolated_folder(id@),
        r@.len() > 0,
        forall|i: int| 0 <= i < r@.len() ==> #[trigger] r@[i] != '/' && r@[i] != '\\' && r@[i] != '.',
{
    let c = sanitize_for_path(id);
    if c.as_str().is_empty() {
        let r = owned("_");
        proof {
            reveal_strlit("_");
        }
        r
    } else {
        c
    }
}

/// The cache folders (under the cache directory) a launch keeps its jars
/// in: `_isolated/<folder>` (see [`isolated_folder`]) for a connection that
/// does not share its cache, and `<engine type>/<version>` otherwise, the
/// engine type sanitized.
pub open spec fn jar_folders(
    donotcache: bool,
    conn_id: Seq<char>,
    engine_type: Seq<char>,
    version_dir: Seq<char>,
) -> Seq<Seq<char>> {
    if donotcache {
        seq!["_isolated"@, isolated_folder(conn_id)]
    } else {
        seq![path_component(engine_type), version_dir]
    }
}

/// Executable [`jar_folders`].
pub fn cache_folders(donotcache: bool, conn_id: &str, engine_type: &str, version_dir: &str) -> (r: Vec<
    String,
>)
    ensures
        views(r@) == jar_folders(donotcache, conn_id@, engine_type@, version_dir@),
{
    let mut r: Vec<String> = Vec::new();
    if donotcache {
        r.push(owned("_isolated"));
        r.push(isolated_folder_name(conn_id));
    } else {
        r.push(sanitize_for_path(engine_type));
        r.push(owned(version_dir));
    }
    assert(views(r@) =~= jar_folders(donotcache, conn_id@, engine_type@, version_dir@));
    r
}

/// The number of bytes `c` takes in UTF-8.
pub open spec fn utf8_width(c: char) -> nat {
    let u = c as u32;
    if u < 0x80 {
        1
    } else if u < 0x800 {
        2
    } else if u < 0x10000 {
        3
    } else {
        4
    }
}

/// The number of bytes `s` takes in UTF-8.
pub open spec fn utf8_len(s: Seq<char>) -> nat
    decreases s.len(),
{
    if s.len() == 0 {
        0
    } else {
        utf8_len(s.drop_last()) + utf8_width(s.last())
    }
}

/// Executable [`utf8_width`] (`char::len_utf8`).
fn char_width(c: char) -> (r: usize)
    ensures
        r == utf8_width(c),
{
    let u = c as u32;
    if u < 0x80 {
        1
    } else if u < 0x800 {
        2
    } else if u < 0x10000 {
        3
    } else {
        4
    }
}

/// The byte length `min(8, len)` of the id prefix a legacy cache folder was
/// named with falls on a character boundary of `id`.
pub open spec fn legacy_prefix_ok(id: Seq<char>) -> bool {
    exists|k: int| 0 <= k <= id.len() && utf8_len(id.take(k)) == if utf8_len(id) < 8 {
        utf8_len(id)
    } else {
        8
    }
}

/// A character of a connection name in a legacy folder name.
pub open spec fn legacy_char(c: char) -> char {
    if unicode_alphanumeric(c) {
        c
    } else {
        '-'
    }
}

/// The folder an older version cached a connection's jars in:
/// `<name>_<id prefix>`, the name lowercased with non-alphanumerics as `-`
/// and the sanitized id cut to its first 8 bytes.
pub open spec fn legacy_folder(name: Seq<char>, id: Seq<char>, k: int) -> Seq<char> {
    unicode_lowercase(name).map_values(|c: char| legacy_char(c)) + "_"@ + id.take(k)
}

/// The legacy cache folder name for a connection; the caller checks that
/// the id prefix ends on a character boundary (see [`legacy_prefix_ok`]).
pub fn legacy_cache_folder(conn_name: &str, safe_conn_id: &str) -> (r: String)
    requires
        legacy_prefix_ok(safe_conn_id@),
    ensures
        exists|k: int|
            0 <= k <= safe_conn_id@.len() && utf8_len(safe_conn_id@.take(k)) == (if utf8_len(
                safe_conn_id@,
            ) < 8 {
                utf8_len(safe_conn_id@)
            } else {
                8
            }) && r@ == legacy_folder(conn_name@, safe_conn_id@, k),
{
    let lower = chars_of(to_lowercase(conn_name).as_str());
    let mut r = String::new();
    let mut i: usize = 0;
    while i < lower.len()
        invariant
            i <= lower.len(),
            lower@ == unicode_lowercase(conn_name@),
            r@ == lower@.take(i as int).map_values(|c: char| legacy_char(c)),
        decreases lower.len() - i,
    {
        let c = lower[i];
        let d = if is_alphanumeric(c) {
            c
        } else {
            '-'
        };
        r.push(d);
        assert(lower@.take(i + 1).map_values(|c: char| legacy_char(c)) == lower@.take(
            i as int,
        ).map_values(|c: char| legacy_char(c)).push(d));
        i = i + 1;
    }
    assert(lower@.take(lower.len() as int) == lower@);
    r.push('_');
    let id = chars_of(safe_conn_id);
    // Take characters while the prefix is under 8 bytes.
    let mut k: usize = 0;
    let mut bytes: usize = 0;
    while k < id.len() && bytes < 8
        invariant
            k <= id.len(),
            id@ == safe_conn_id@,
            bytes == utf8_len(id@.take(k as int)),
            k > 0 ==> utf8_len(id@.take(k - 1)) < 8,
            bytes < 12,
        decreases id.len() - k,
    {
        assert(id@.take(k + 1).drop_last() == id@.take(k as int));
        bytes = bytes + char_width(id[k]);
        k = k + 1;
    }
    proof {
        assert(id@.take(id@.len() as int) == id@);
        let t = if utf8_len(id@) < 8 {
            utf8_len(id@)
        } else {
            8
        };
        let kk = choose|kk: int| 0 <= kk <= id@.len() && utf8_len(id@.take(kk)) == t;
        if kk < k {
            lemma_utf8_prefix_monotone(id@, kk, k - 1);
        }
        if k < kk {
            lemma_utf8_prefix_monotone(id@, k as int + 1, kk);
            lemma_utf8_step(id@, k as int);
            lemma_utf8_prefix_monotone(id@, kk, id@.len() as int);
        }
        if utf8_len(id@) < 8 {
            lemma_utf8_prefix_monotone(id@, k as int, id@.len() as int);
        }
        assert(utf8_len(id@.take(k as int)) == t);
    }
    let ghost before = r@;
    let mut m: usize = 0;
    while m < k
        invariant
            m <= k <= id.len(),
            r@ == before + id@.take(m as int),
        decreases k - m,
    {
        r.push(id[m]);
        assert(id@.take(m + 1) == id@.take(m as int).push(id@[m as int]));
        m = m + 1;
    }
    proof {
        reveal_strlit("_");
        assert(r@ =~= legacy_folder(conn_name@, safe_conn_id@, k as int));
    }
    r
}

/// Longer prefixes take at least as many bytes.
proof fn lemma_utf8_prefix_monotone(s: Seq<char>, a: int, b: int)
    requires
        0 <= a <= b <= s.len(),
    ensures
        utf8_len(s.take(a)) <= utf8_len(s.take(b)),
    decreases b - a,
{
    if a < b {
        lemma_utf8_prefix_monotone(s, a, b - 1);
        assert(s.take(b).drop_last() == s.take(b - 1));
    }
}

/// One more character adds at least one byte.
proof fn lemma_utf8_step(s: Seq<char>, a: int)
    requires
        0 <= a < s.len(),
    ensures
        utf8_len(s.take(a + 1)) >= utf8_len(s.take(a)) + 1,
{
    assert(s.take(a + 1).drop_last() == s.take(a));
}

// ---------------------------------------------------------------------------
// The loaded description and the command line
// ---------------------------------------------------------------------------

/// A loaded Web Start description: what to run and with which jars.
pub struct WebstartFile {
    main_class: String,
    args: Vec<String>,
    j2ses: Option<Vec<J2se>>,
    logs_dir: String,
    conn_id: String,
    /// Classpath jars in JNLP-declared order. The order is significant:
    /// patched overlay jars are listed before the stock jars they shadow.
    classpath_jars: Vec<String>,
}

/// How to start the administrator.
pub struct LaunchPlan {
    /// The Java home whose `bin/java` runs it, or `None` for `java` on `PATH`.
    pub java_home: Option<String>,
    /// The value of `JDK_JAVA_OPTIONS`, if it is to be set.
    pub jdk_java_options: Option<String>,
    /// The arguments after the program name.
    pub args: Vec<String>,
}

/// Whether `t` occurs in `s`.
pub open spec fn contains_seq(s: Seq<char>, t: Seq<char>) -> bool {
    exists|i: int| 0 <= i && i + t.len() <= s.len() && #[trigger] s.subrange(i, i + t.len()) == t
}

/// Executable [`contains_seq`].
pub fn str_contains(s: &str, t: &str) -> (r: bool)
    ensures
        r == contains_seq(s@, t@),
{
    let sv = chars_of(s);
    let tv = chars_of(t);
    if tv.len() > sv.len() {
        return false;
    }
    let mut i: usize = 0;
    while i <= sv.len() - tv.len()
        invariant
            sv@ == s@,
            tv@ == t@,
            tv.len() <= sv.len(),
            i <= sv.len() - tv.len() + 1,
            forall|a: int| 0 <= a < i ==> #[trigger] sv@.subrange(a, a + tv@.len()) != tv@,
        decreases sv.len() - i,
    {
        let mut j: usize = 0;
        while j < tv.len() && sv[i + j] == tv[j]
            invariant
                i + tv.len() <= sv.len(),
                j <= tv.len(),
                forall|b: int| 0 <= b < j ==> sv@[i + b] == tv@[b],
            decreases tv.len() - j,
        {
            j = j + 1;
        }
        if j == tv.len() {
            assert(sv@.subrange(i as int, i + tv@.len()) =~= tv@);
            return true;
        }
        assert(sv@.subrange(i as int, i + tv@.len())[j as int] != tv@[j as int]);
        i = i + 1;
    }
    false
}

/// The `JDK_JAVA_OPTIONS` value the `<j2se>` resources ask for: the safe
/// JVM arguments of the last resource for version `1.9` whose safe
/// arguments are not empty.
pub open spec fn jdk_options(j2ses: Seq<J2seView>) -> Option<Seq<char>>
    decreases j2ses.len(),
{
    if j2ses.len() == 0 {
        None
    } else {
        let j = j2ses.last();
        if contains_seq(j.version, "1.9"@) && j.java_vm_args is Some && safe_vm_args(
            j.java_vm_args->0,
        ).len() > 0 {
            Some(safe_vm_args(j.java_vm_args->0))
        } else {
            jdk_options(j2ses.drop_last())
        }
    }
}

/// The arguments of a launch: the heap size (`-Xmx<heap>`) when one is set,
/// the connection's own safe JVM arguments, `-cp <classpath> <main class>`,
/// then the client arguments with the credentials.
pub open spec fn launch_args(
    heap: Seq<char>,
    java_args: Option<Seq<char>>,
    classpath: Seq<char>,
    main_class: Seq<char>,
    client: Seq<Seq<char>>,
) -> Seq<Seq<char>> {
    let heap_args = if trim(heap).len() > 0 {
        seq!["-Xmx"@ + trim(heap)]
    } else {
        Seq::empty()
    };
    let extra = match java_args {
        Some(a) => words(safe_vm_args(a)),
        None => Seq::empty(),
    };
    heap_args + extra + seq!["-cp"@, classpath, main_class] + client
}

impl WebstartFile {
    /// A description to run `main_class` with `args`, these `<j2se>`
    /// resources and classpath, logging under `logs_dir` as `conn_id`.
    pub fn new(
        main_class: String,
        args: Vec<String>,
        j2ses: Option<Vec<J2se>>,
        logs_dir: String,
        conn_id: String,
        classpath_jars: Vec<String>,
    ) -> (w: WebstartFile)
        ensures
            w.main_class_view() == main_class@,
            w.args_view() == views(args@),
            w.j2ses_view() == (match j2ses {
                Some(v) => j2se_views(v@),
                None => Seq::<J2seView>::empty(),
            }),
            w.logs_dir_view() == logs_dir@,
            w.conn_id_view() == conn_id@,
            w.jars_view() == views(classpath_jars@),
    {
        WebstartFile { main_class, args, j2ses, logs_dir, conn_id, classpath_jars }
    }

    pub closed spec fn main_class_view(&self) -> Seq<char> {
        self.main_class@
    }

    pub closed spec fn args_view(&self) -> Seq<Seq<char>> {
        views(self.args@)
    }

    pub closed spec fn j2ses_view(&self) -> Seq<J2seView> {
        match self.j2ses {
            Some(v) => j2se_views(v@),
            None => Seq::empty(),
        }
    }

    pub closed spec fn logs_dir_view(&self) -> Seq<char> {
        self.logs_dir@
    }

    pub closed spec fn conn_id_view(&self) -> Seq<char> {
        self.conn_id@
    }

    pub closed spec fn jars_view(&self) -> Seq<Seq<char>> {
        views(self.classpath_jars@)
    }

    /// The classpath: the jars in JNLP-declared order joined by `separator`.
    /// It must not be sorted, or overlay jars lose to the stock jars they
    /// patch.
    pub fn classpath(&self, separator: &str) -> (r: String)
        ensures
            r@ == join(self.jars_view(), separator@),
    {
        join_strings(&self.classpath_jars, separator)
    }

    /// The directory the launch log goes in.
    pub fn logs_dir(&self) -> (r: &str)
        ensures
            r@ == self.logs_dir_view(),
    {
        self.logs_dir.as_str()
    }

    /// The launch log's file name: `<connection id>.log`.
    pub fn log_file_name(&self) -> (r: String)
        ensures
            r@ == self.conn_id_view() + ".log"@,
    {
        let mut r = self.conn_id.clone();
        push_str(&mut r, ".log");
        r
    }

    /// The main class the administrator starts with.
    pub fn main_class(&self) -> (r: &str)
        ensures
            r@ == self.main_class_view(),
    {
        self.main_class.as_str()
    }

    /// How to start the administrator for connection `ce`, with classpath
    /// entries joined by `classpath_separator` (`;` on Windows, `:`
    /// elsewhere): which `java`, the `JDK_JAVA_OPTIONS` the JNLP asks for
    /// (made safe), and the arguments (see [`launch_args`]).
    pub fn launch_plan(&self, ce: &ConnectionEntry, classpath_separator: &str) -> (p: LaunchPlan)
        ensures
            match p.java_home {
                Some(h) => trim(ce@.java_home).len() > 0 && h@ == trim(ce@.java_home),
                None => trim(ce@.java_home).len() == 0,
            },
            match p.jdk_java_options {
                Some(o) => jdk_options(self.j2ses_view()) == Some(o@),
                None => jdk_options(self.j2ses_view()) is None,
            },
            views(p.args@) == launch_args(
                ce@.heap_size,
                ce@.java_args,
                join(self.jars_view(), classpath_separator@),
                self.main_class_view(),
                client_args(self.args_view(), ce@.username, ce@.password),
            ),
    {
        let classpath = self.classpath(classpath_separator);
        let jh = trimmed(&chars_of(ce.java_home.as_str()));
        let java_home = if jh.as_str().is_empty() {
            None
        } else {
            Some(jh)
        };
        let mut jdk_java_options: Option<String> = None;
        if let Some(vm_args) = &self.j2ses {
            let mut i: usize = 0;
            while i < vm_args.len()
                invariant
                    i <= vm_args.len(),
                    self.j2ses == Some(*vm_args),
                    match jdk_java_options {
                        Some(o) => jdk_options(j2se_views(vm_args@.take(i as int))) == Some(o@),
                        None => jdk_options(j2se_views(vm_args@.take(i as int))) is None,
                    },
                decreases vm_args.len() - i,
            {
                let va = &vm_args[i];
                proof {
                    assert(j2se_views(vm_args@.take(i + 1)).drop_last() == j2se_views(vm_args@.take(i as int)));
                    assert(j2se_views(vm_args@.take(i + 1)).last() == va@);
                }
                if str_contains(va.version.as_str(), "1.9") {
                    if let Some(a) = &va.java_vm_args {
                        let filtered = sanitize_vm_args(a.as_str());
                        if !filtered.as_str().is_empty() {
                            jdk_java_options = Some(filtered);
                        }
                    }
                }
                i = i + 1;
            }
            proof {
                assert(vm_args@.take(vm_args@.len() as int) == vm_args@);
            }
        }
        let mut args: Vec<String> = Vec::new();
        let heap = trimmed(&chars_of(ce.heap_size.as_str()));
        if !heap.as_str().is_empty() {
            let mut h = owned("-Xmx");
            push_str(&mut h, heap.as_str());
            args.push(h);
            proof {
                assert(views(args@) =~= seq!["-Xmx"@ + trim(ce@.heap_size)]);
            }
        } else {
            proof {
                assert(views(args@) =~= Seq::<Seq<char>>::empty());
            }
        }
        let ghost heap_part = views(args@);
        let ghost extra: Seq<Seq<char>> = match ce@.java_args {
            Some(a) => words(safe_vm_args(a)),
            None => Seq::empty(),
        };
        if let Some(a) = &ce.java_args {
            let sanitized = sanitize_vm_args(a.as_str());
            let ws = split_whitespace(&chars_of(sanitized.as_str()));
            let mut i: usize = 0;
            while i < ws.len()
                invariant
                    i <= ws.len(),
                    views(args@) == heap_part + views(ws@.take(i as int)),
                decreases ws.len() - i,
            {
                let w = ws[i].clone();
                let ghost before = views(args@);
                args.push(w);
                proof {
                    assert(views(args@) =~= before.push(w@));
                    assert(views(ws@.take(i + 1)) =~= views(ws@.take(i as int)).push(ws@[i as int]@));
                    assert(views(args@) =~= heap_part + views(ws@.take(i + 1)));
                }
                i = i + 1;
            }
            proof {
                assert(ws@.take(ws@.len() as int) == ws@);
            }
        } else {
            proof {
                assert(views(args@) =~= heap_part + extra);
            }
        }
        assert(views(args@) == heap_part + extra);
        let ghost before_cp = views(args@);
        let mc = self.main_class.clone();
        let ghost cpv = classpath@;
        args.push(owned("-cp"));
        args.push(classpath);
        args.push(mc);
        proof {
            assert(views(args@) =~= before_cp + seq!["-cp"@, cpv, self.main_class@]);
        }
        let username: Option<&str> = match &ce.username {
            Some(u) => Some(u.as_str()),
            None => None,
        };
        let password: Option<&str> = match &ce.password {
            Some(p) => Some(p.as_str()),
            None => None,
        };
        let client = build_client_args(&self.args, username, password);
        let ghost before_client = views(args@);
        let mut i: usize = 0;
        while i < client.len()
            invariant
                i <= client.len(),
                views(args@) == before_client + views(client@.take(i as int)),
            decreases client.len() - i,
        {
            let w = client[i].clone();
            let ghost before = views(args@);
            args.push(w);
            proof {
                assert(views(args@) =~= before.push(w@));
                assert(views(client@.take(i + 1)) =~= views(client@.take(i as int)).push(client@[i as int]@));
                assert(views(args@) =~= before_client + views(client@.take(i + 1)));
            }
            i = i + 1;
        }
        proof {
            assert(client@.take(client@.len() as int) == client@);
            assert(views(args@) =~= heap_part + extra + seq!["-cp"@, cpv, self.main_class@]
                + views(client@));
        }
        LaunchPlan { java_home, jdk_java_options, args }
    }
}

} // verus!
