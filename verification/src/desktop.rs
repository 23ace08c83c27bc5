//! The launcher's own surfaces: connection icons, certificate pins, console
//! window labels and the desktop entries that pair an administrator's
//! windows with its icon.

use vstd::prelude::*;

use crate::codec::{base64_bytes, base64_decode, base64_encode, base64_text};
use crate::connection::{sanitize_id, sanitized_id, with_pin, ConnectionStore};
use crate::text::{
    ascii_lower, ascii_lower_char, ascii_lowercase, chars_of, is_ascii_alnum, is_ascii_alnum_char,
    is_ascii_hex, owned,
    push_str, starts_with, str_eq, string_of, string_of_range, trim, trimmed, trimmed_chars,
    vec_starts_with,
};
use crate::webstart::{wm_class, window_class};

verus! {

// ---------------------------------------------------------------------------
// Icons
// ---------------------------------------------------------------------------

/// The bundled preset icons, in display order. A connection refers to one
/// as `preset:<name>`.
pub open spec fn preset_names() -> Seq<Seq<char>> {
    seq![
        "heartbeat"@,
        "stethoscope"@,
        "shield-check"@,
        "database"@,
        "plug"@,
        "cloud"@,
        "globe"@,
        "gear"@,
        "rocket"@,
        "flask"@,
        "bug"@,
        "lightning"@,
    ]
}

/// The preset icon names, in display order.
pub fn preset_icons() -> (r: Vec<String>)
    ensures
        crate::text::views(r@) == preset_names(),
{
    let mut r: Vec<String> = Vec::new();
    r.push(owned("heartbeat"));
    r.push(owned("stethoscope"));
    r.push(owned("shield-check"));
    r.push(owned("database"));
    r.push(owned("plug"));
    r.push(owned("cloud"));
    r.push(owned("globe"));
    r.push(owned("gear"));
    r.push(owned("rocket"));
    r.push(owned("flask"));
    r.push(owned("bug"));
    r.push(owned("lightning"));
    assert(crate::text::views(r@) =~= preset_names());
    r
}

/// Whether `name` is one of the bundled presets.
pub fn is_preset_icon(name: &str) -> (b: bool)
    ensures
        b == preset_names().contains(name@),
{
    let all = preset_icons();
    let mut i: usize = 0;
    while i < all.len()
        invariant
            i <= all.len(),
            crate::text::views(all@) == preset_names(),
            forall|j: int| 0 <= j < i ==> all@[j]@ != name@,
        decreases all.len() - i,
    {
        if str_eq(all[i].as_str(), name) {
            assert(preset_names()[i as int] == name@);
            return true;
        }
        i = i + 1;
    }
    assert forall|j: int| 0 <= j < preset_names().len() implies preset_names()[j] != name@ by {
        assert(preset_names()[j] == all@[j]@);
    }
    false
}

/// Where a connection's icon comes from.
pub enum IconSource {
    /// The bundled default icon.
    Default,
    /// A bundled preset, by name.
    Preset(String),
    /// An image file, by path (the default is used if it is not a file).
    File(String),
}

/// The icon selection `sel` refers to: nothing (absent or blank) is the
/// default; `preset:<name>` is that preset when it is a known one and the
/// default otherwise; anything else is a file path, trimmed.
pub open spec fn icon_source_of(sel: Option<Seq<char>>) -> (Option<Seq<char>>, Option<Seq<char>>) {
    match sel {
        None => (None, None),
        Some(s) => {
            let t = trim(s);
            if t.len() == 0 {
                (None, None)
            } else if starts_with(t, "preset:"@) {
                let name = t.skip(7);
                if preset_names().contains(name) {
                    (Some(name), None)
                } else {
                    (None, None)
                }
            } else {
                (None, Some(t))
            }
        },
    }
}

/// Resolves a connection's icon selection (see [`icon_source_of`]); the one
/// resolution used by the launch, the connection list and the settings
/// preview, so they cannot disagree.
pub fn icon_source(icon_path: Option<&str>) -> (r: IconSource)
    ensures
        ({
            let (preset, file) = icon_source_of(
                match icon_path {
                    Some(p) => Some(p@),
                    None => None,
                },
            );
            match r {
                IconSource::Default => preset is None && file is None,
                IconSource::Preset(n) => preset == Some(n@) && file is None,
                IconSource::File(f) => preset is None && file == Some(f@),
            }
        }),
{
    let sel = match icon_path {
        Some(p) => p,
        None => {
            return IconSource::Default;
        },
    };
    let t = trimmed_chars(sel);
    if t.len() == 0 {
        return IconSource::Default;
    }
    let prefix = chars_of("preset:");
    proof {
        reveal_strlit("preset:");
    }
    if vec_starts_with(&t, &prefix) {
        let name = string_of_range(&t, 7, t.len());
        assert(name@ == t@.skip(7));
        if is_preset_icon(name.as_str()) {
            IconSource::Preset(name)
        } else {
            IconSource::Default
        }
    } else {
        IconSource::File(string_of(&t))
    }
}

/// The media type of an icon by file extension (any ASCII case): JPEG for
/// `jpg`/`jpeg`, GIF for `gif`, PNG otherwise.
pub open spec fn icon_mime_of(ext: Option<Seq<char>>) -> Seq<char> {
    match ext {
        Some(e) => if ascii_lowercase(e) == "jpg"@ || ascii_lowercase(e) == "jpeg"@ {
            "image/jpeg"@
        } else if ascii_lowercase(e) == "gif"@ {
            "image/gif"@
        } else {
            "image/png"@
        },
        None => "image/png"@,
    }
}

/// An ASCII-lowercased copy of `s`.
pub fn to_ascii_lowercase(s: &str) -> (r: String)
    ensures
        r@ == ascii_lowercase(s@),
{
    let v = chars_of(s);
    let mut r = String::new();
    let mut i: usize = 0;
    while i < v.len()
        invariant
            i <= v.len(),
            v@ == s@,
            r@ == ascii_lowercase(v@.take(i as int)),
        decreases v.len() - i,
    {
        r.push(ascii_lower_char(v[i]));
        assert(ascii_lowercase(v@.take(i + 1)) == ascii_lowercase(v@.take(i as int)).push(
            ascii_lower(v@[i as int]),
        ));
        i = i + 1;
    }
    assert(v@.take(v.len() as int) == v@);
    r
}

/// Executable [`icon_mime_of`].
pub fn icon_mime(extension: Option<&str>) -> (r: String)
    ensures
        r@ == icon_mime_of(
            match extension {
                Some(e) => Some(e@),
                None => None,
            },
        ),
{
    match extension {
        Some(e) => {
            let l = to_ascii_lowercase(e);
            if str_eq(l.as_str(), "jpg") || str_eq(l.as_str(), "jpeg") {
                owned("image/jpeg")
            } else if str_eq(l.as_str(), "gif") {
                owned("image/gif")
            } else {
                owned("image/png")
            }
        },
        None => owned("image/png"),
    }
}

/// The media type for a preview by file extension (any ASCII case), or
/// `None` when it is not PNG, JPEG or GIF.
pub open spec fn preview_mime_of(ext: Option<Seq<char>>) -> Option<Seq<char>> {
    match ext {
        Some(e) => if ascii_lowercase(e) == "png"@ {
            Some("image/png"@)
        } else if ascii_lowercase(e) == "jpg"@ || ascii_lowercase(e) == "jpeg"@ {
            Some("image/jpeg"@)
        } else if ascii_lowercase(e) == "gif"@ {
            Some("image/gif"@)
        } else {
            None
        },
        None => None,
    }
}

/// The error for a preview of an unsupported type.
pub open spec fn unsupported_image_msg() -> Seq<char> {
    "unsupported image type (use png, jpg, or gif)"@
}

/// The media type for an icon preview by file extension; see
/// [`preview_mime_of`].
pub fn preview_mime(extension: Option<&str>) -> (r: Result<String, String>)
    ensures
        match preview_mime_of(
            match extension {
                Some(e) => Some(e@),
                None => None,
            },
        ) {
            Some(m) => r matches Ok(x) && x@ == m,
            None => r matches Err(e) && e@ == unsupported_image_msg(),
        },
{
    if let Some(e) = extension {
        let l = to_ascii_lowercase(e);
        if str_eq(l.as_str(), "png") {
            return Ok(owned("image/png"));
        } else if str_eq(l.as_str(), "jpg") || str_eq(l.as_str(), "jpeg") {
            return Ok(owned("image/jpeg"));
        } else if str_eq(l.as_str(), "gif") {
            return Ok(owned("image/gif"));
        }
    }
    Err(owned("unsupported image type (use png, jpg, or gif)"))
}

/// The largest image file a preview reads.
pub const PREVIEW_MAX_BYTES: u64 = 10485760;

/// Refuses a preview of a file of `len` bytes when it is over the limit.
pub fn check_preview_size(len: u64) -> (r: Result<(), String>)
    ensures
        len > PREVIEW_MAX_BYTES <==> r is Err,
        r matches Err(e) ==> e@ == "image is larger than 10MB"@,
{
    if len > PREVIEW_MAX_BYTES {
        Err(owned("image is larger than 10MB"))
    } else {
        Ok(())
    }
}

/// A `data:` URI: `data:<mime>;base64,<Base64 of bytes>`.
pub open spec fn data_uri_of(mime: Seq<char>, bytes: Seq<u8>) -> Seq<char> {
    "data:"@ + mime + ";base64,"@ + base64_text(bytes)
}

/// Executable [`data_uri_of`].
pub fn data_uri(mime: &str, bytes: &[u8]) -> (r: String)
    ensures
        r@ == data_uri_of(mime@, bytes@),
{
    let mut r = owned("data:");
    push_str(&mut r, mime);
    push_str(&mut r, ";base64,");
    let b = base64_encode(bytes);
    push_str(&mut r, b.as_str());
    r
}

/// The largest composed icon accepted, in bytes.
pub const ICON_MAX_BYTES: usize = 5242880;

/// Whether `b` begins with the PNG signature's first four bytes.
pub open spec fn png_magic(b: Seq<u8>) -> bool {
    b.len() >= 4 && b[0] == 0x89 && b[1] == 0x50 && b[2] == 0x4E && b[3] == 0x47
}

/// What saving a composed icon for connection `id` from Base64 text `text`
/// gives: the file name (`<sanitized id>.png`) and the PNG bytes, or the
/// error: a blank sanitized id, text that is not Base64, more than
/// [`ICON_MAX_BYTES`], or bytes that are not a PNG, checked in that order.
pub open spec fn icon_upload(id: Seq<char>, text: Seq<char>) -> Result<(Seq<char>, Seq<u8>), Seq<char>> {
    if sanitized_id(id).len() == 0 {
        Err("bad connection id"@)
    } else {
        match base64_bytes(trim(text)) {
            None => Err(Seq::empty()),
            Some(b) => if b.len() > ICON_MAX_BYTES {
                Err("icon too large"@)
            } else if !png_magic(b) {
                Err("not a png"@)
            } else {
                Ok((sanitized_id(id) + ".png"@, b))
            },
        }
    }
}

/// Checks a composed icon (Base64 PNG text from the settings page) for
/// connection `connection_id` and returns the file name to store it under
/// (in `<data dir>/icons`) and its bytes. The decoder's own message is the
/// error for text that is not Base64; see [`icon_upload`].
pub fn prepare_connection_icon(connection_id: &str, png_base64: &str) -> (r: Result<
    (String, Vec<u8>),
    String,
>)
    ensures
        match icon_upload(connection_id@, png_base64@) {
            Ok((name, bytes)) => r matches Ok((n, b)) && n@ == name && b@ == bytes,
            Err(e) => r is Err && ((base64_bytes(trim(png_base64@)) is Some || sanitized_id(
                connection_id@,
            ).len() == 0) ==> (r matches Err(x) && x@ == e)),
        },
{
    let sanitized = sanitize_id(connection_id);
    if sanitized.as_str().is_empty() {
        return Err(owned("bad connection id"));
    }
    let text = trimmed(&chars_of(png_base64));
    let bytes = base64_decode(text.as_str())?;
    if bytes.len() > ICON_MAX_BYTES {
        return Err(owned("icon too large"));
    }
    if !(bytes.len() >= 4 && bytes[0] == 0x89 && bytes[1] == 0x50 && bytes[2] == 0x4E && bytes[3]
        == 0x47) {
        return Err(owned("not a png"));
    }
    let mut name = sanitized;
    push_str(&mut name, ".png");
    Ok((name, bytes))
}

// ---------------------------------------------------------------------------
// Certificate pins
// ---------------------------------------------------------------------------

/// The canonical form of a fingerprint the operator trusted: trimmed and
/// ASCII-lowercased; it is accepted only as 64 hexadecimal digits.
pub open spec fn canonical_pin(sha256: Seq<char>) -> Option<Seq<char>> {
    let p = ascii_lowercase(trim(sha256));
    if p.len() == 64 && forall|i: int| 0 <= i < 64 ==> is_ascii_hex(#[trigger] p[i]) {
        Some(p)
    } else {
        None
    }
}

/// Executable [`canonical_pin`].
pub fn canonicalize_pin(sha256: &str) -> (r: Option<String>)
    ensures
        match r {
            Some(p) => canonical_pin(sha256@) == Some(p@),
            None => canonical_pin(sha256@) is None,
        },
{
    let t = trimmed(&chars_of(sha256));
    let p = to_ascii_lowercase(t.as_str());
    let v = chars_of(p.as_str());
    assert(v@ == ascii_lowercase(trim(sha256@)));
    if v.len() != 64 {
        return None;
    }
    let mut i: usize = 0;
    while i < 64
        invariant
            i <= 64,
            v.len() == 64,
            v@ == ascii_lowercase(trim(sha256@)),
            forall|j: int| 0 <= j < i ==> is_ascii_hex(#[trigger] v@[j]),
        decreases 64 - i,
    {
        let c = v[i];
        if !(('a' <= c && c <= 'f') || ('A' <= c && c <= 'F') || ('0' <= c && c <= '9')) {
            assert(!is_ascii_hex(v@[i as int]));
            return None;
        }
        i = i + 1;
    }
    Some(p)
}

/// The error for a fingerprint that is not 64 hexadecimal digits.
pub open spec fn invalid_pin_msg() -> Seq<char> {
    "invalid certificate fingerprint"@
}

/// Records the certificate the operator trusted for a connection, in the
/// canonical form the launch-time comparison expects; a fingerprint that is
/// not 64 hexadecimal digits is refused and nothing changes.
pub fn set_pin(cs: &mut ConnectionStore, connection_id: &str, sha256: &str) -> (r: Result<(), String>)
    ensures
        match canonical_pin(sha256@) {
            Some(p) => r is Ok && final(cs)@ == (if old(cs)@.dom().contains(connection_id@) {
                old(cs)@.insert(connection_id@, with_pin(old(cs)@[connection_id@], Some(p)))
            } else {
                old(cs)@
            }),
            None => r matches Err(e) && e@ == invalid_pin_msg() && final(cs)@ == old(cs)@,
        },
        final(cs).location() == old(cs).location(),
        final(cs).cache_path() == old(cs).cache_path(),
        final(cs).logs_path() == old(cs).logs_path(),
{
    match canonicalize_pin(sha256) {
        Some(p) => {
            cs.update_pin(connection_id, Some(p));
            Ok(())
        },
        None => Err(owned("invalid certificate fingerprint")),
    }
}

// ---------------------------------------------------------------------------
// Windows and desktop entries
// ---------------------------------------------------------------------------

/// The lowercase hexadecimal digit of a nibble (`f` for anything above 15).
pub open spec fn hex_digit(d: u32) -> char {
    if d == 0 {
        '0'
    } else if d == 1 {
        '1'
    } else if d == 2 {
        '2'
    } else if d == 3 {
        '3'
    } else if d == 4 {
        '4'
    } else if d == 5 {
        '5'
    } else if d == 6 {
        '6'
    } else if d == 7 {
        '7'
    } else if d == 8 {
        '8'
    } else if d == 9 {
        '9'
    } else if d == 10 {
        'a'
    } else if d == 11 {
        'b'
    } else if d == 12 {
        'c'
    } else if d == 13 {
        'd'
    } else if d == 14 {
        'e'
    } else {
        'f'
    }
}

/// Executable [`hex_digit`].
fn hex_digit_char(d: u32) -> (r: char)
    ensures
        r == hex_digit(d),
{
    match d {
        0 => '0',
        1 => '1',
        2 => '2',
        3 => '3',
        4 => '4',
        5 => '5',
        6 => '6',
        7 => '7',
        8 => '8',
        9 => '9',
        10 => 'a',
        11 => 'b',
        12 => 'c',
        13 => 'd',
        14 => 'e',
        _ => 'f',
    }
}

/// A character that a console label keeps as it is: an ASCII letter or
/// digit, or `-`.
pub open spec fn label_plain(c: char) -> bool {
    is_ascii_alnum(c) || c == '-'
}

/// `_`, the code point of `c` as six lowercase hexadecimal digits, `_`.
pub open spec fn escape_code(c: char) -> Seq<char> {
    let n = c as u32;
    seq![
        '_',
        hex_digit((n >> 20u32) & 0xfu32),
        hex_digit((n >> 16u32) & 0xfu32),
        hex_digit((n >> 12u32) & 0xfu32),
        hex_digit((n >> 8u32) & 0xfu32),
        hex_digit((n >> 4u32) & 0xfu32),
        hex_digit(n & 0xfu32),
        '_',
    ]
}

/// How a character of an id appears in a console label: kept when it is
/// [`label_plain`], `__` for `_`, and [`escape_code`] otherwise.
pub open spec fn label_code(c: char) -> Seq<char> {
    if label_plain(c) {
        seq![c]
    } else if c == '_' {
        seq!['_', '_']
    } else {
        escape_code(c)
    }
}

/// The codes of the characters of `s`, one after another.
pub open spec fn label_body(s: Seq<char>) -> Seq<char>
    decreases s.len(),
{
    if s.len() == 0 {
        Seq::empty()
    } else {
        label_body(s.drop_last()) + label_code(s.last())
    }
}

/// Every character of a label body is an ASCII letter or digit, `-` or `_`.
pub proof fn lemma_label_body_chars(s: Seq<char>)
    ensures
        forall|i: int|
            0 <= i < label_body(s).len() ==> is_ascii_alnum(#[trigger] label_body(s)[i])
                || label_body(s)[i] == '-' || label_body(s)[i] == '_',
    decreases s.len(),
{
    if s.len() > 0 {
        lemma_label_body_chars(s.drop_last());
        let p = label_body(s.drop_last());
        let c = label_code(s.last());
        assert forall|i: int| 0 <= i < label_body(s).len() implies is_ascii_alnum(
            #[trigger] label_body(s)[i],
        ) || label_body(s)[i] == '-' || label_body(s)[i] == '_' by {
            if i < p.len() {
                assert(label_body(s)[i] == p[i]);
            } else {
                assert(label_body(s)[i] == c[i - p.len()]);
            }
        }
    }
}

/// A nibble is below 16.
proof fn lemma_nibbles(n: u32)
    ensures
        (n >> 20u32) & 0xfu32 < 16,
        (n >> 16u32) & 0xfu32 < 16,
        (n >> 12u32) & 0xfu32 < 16,
        (n >> 8u32) & 0xfu32 < 16,
        (n >> 4u32) & 0xfu32 < 16,
        n & 0xfu32 < 16,
{
    assert((n >> 20u32) & 0xfu32 < 16) by (bit_vector);
    assert((n >> 16u32) & 0xfu32 < 16) by (bit_vector);
    assert((n >> 12u32) & 0xfu32 < 16) by (bit_vector);
    assert((n >> 8u32) & 0xfu32 < 16) by (bit_vector);
    assert((n >> 4u32) & 0xfu32 < 16) by (bit_vector);
    assert(n & 0xfu32 < 16) by (bit_vector);
}

/// Six nibbles determine a code point.
proof fn lemma_nibbles_determine(n: u32, m: u32)
    by (bit_vector)
    requires
        n <= 0x10ffff,
        m <= 0x10ffff,
        (n >> 20u32) & 0xfu32 == (m >> 20u32) & 0xfu32,
        (n >> 16u32) & 0xfu32 == (m >> 16u32) & 0xfu32,
        (n >> 12u32) & 0xfu32 == (m >> 12u32) & 0xfu32,
        (n >> 8u32) & 0xfu32 == (m >> 8u32) & 0xfu32,
        (n >> 4u32) & 0xfu32 == (m >> 4u32) & 0xfu32,
        n & 0xfu32 == m & 0xfu32,
    ensures
        n == m,
{
}

/// Two escape codes are equal only for the same character.
proof fn lemma_escape_injective(x: char, y: char)
    requires
        escape_code(x) == escape_code(y),
    ensures
        x == y,
{
    let n = x as u32;
    let m = y as u32;
    lemma_nibbles(n);
    lemma_nibbles(m);
    assert(escape_code(x)[1] == escape_code(y)[1]);
    assert(escape_code(x)[2] == escape_code(y)[2]);
    assert(escape_code(x)[3] == escape_code(y)[3]);
    assert(escape_code(x)[4] == escape_code(y)[4]);
    assert(escape_code(x)[5] == escape_code(y)[5]);
    assert(escape_code(x)[6] == escape_code(y)[6]);
    lemma_nibbles_determine(n, m);
}

/// A label body is empty only for the empty id.
proof fn lemma_label_body_len(s: Seq<char>)
    ensures
        s.len() > 0 ==> label_body(s).len() > 0,
{
}

/// The last character of an id can be read off the end of its label body.
proof fn lemma_last_code(p: Seq<char>, x: char, q: Seq<char>, y: char)
    requires
        p + label_code(x) == q + label_code(y),
    ensures
        x == y,
{
    let a = p + label_code(x);
    let cx = label_code(x);
    let cy = label_code(y);
    assert(a.last() == cx.last());
    assert(a.last() == cy.last());
    if !label_plain(x) && !label_plain(y) {
        assert(a[a.len() - 2] == cx[cx.len() - 2]);
        assert(a[a.len() - 2] == cy[cy.len() - 2]);
        if x != '_' && y != '_' {
            assert(a.skip(a.len() - 8) =~= cx);
            assert(a.skip(a.len() - 8) =~= cy);
            lemma_escape_injective(x, y);
        }
    }
}

/// Different ids have different label bodies.
pub proof fn lemma_label_body_injective(a: Seq<char>, b: Seq<char>)
    requires
        label_body(a) == label_body(b),
    ensures
        a == b,
    decreases a.len(),
{
    lemma_label_body_len(a);
    lemma_label_body_len(b);
    if a.len() > 0 && b.len() > 0 {
        let x = a.last();
        let y = b.last();
        let pa = label_body(a.drop_last());
        let pb = label_body(b.drop_last());
        lemma_last_code(pa, x, pb, y);
        let whole = label_body(a);
        assert(pa =~= whole.take(whole.len() - label_code(x).len()));
        assert(pb =~= whole.take(whole.len() - label_code(y).len()));
        lemma_label_body_injective(a.drop_last(), b.drop_last());
        assert(a =~= a.drop_last().push(x));
        assert(b =~= b.drop_last().push(y));
    } else {
        assert(a =~= b);
    }
}

/// The label of a connection's console window: `console-` followed by the
/// id with every character a window label may not hold escaped (see
/// [`label_code`]), so that it uses only ASCII letters, digits, `-` and `_`
/// and each connection gets a label of its own; the frontend matches on the
/// prefix.
pub open spec fn console_label(id: Seq<char>) -> Seq<char> {
    "console-"@ + label_body(id)
}

/// Executable [`console_label`].
pub fn console_window_label(conn_id: &str) -> (r: String)
    ensures
        r@ == console_label(conn_id@),
{
    let v = chars_of(conn_id);
    let mut body = String::new();
    let mut i: usize = 0;
    while i < v.len()
        invariant
            i <= v.len(),
            v@ == conn_id@,
            body@ == label_body(v@.take(i as int)),
        decreases v.len() - i,
    {
        let c = v[i];
        let ghost before = body@;
        if is_ascii_alnum_char(c) || c == '-' {
            body.push(c);
        } else if c == '_' {
            body.push('_');
            body.push('_');
        } else {
            let n = c as u32;
            body.push('_');
            body.push(hex_digit_char((n >> 20u32) & 0xfu32));
            body.push(hex_digit_char((n >> 16u32) & 0xfu32));
            body.push(hex_digit_char((n >> 12u32) & 0xfu32));
            body.push(hex_digit_char((n >> 8u32) & 0xfu32));
            body.push(hex_digit_char((n >> 4u32) & 0xfu32));
            body.push(hex_digit_char(n & 0xfu32));
            body.push('_');
        }
        proof {
            assert(v@.take(i + 1).drop_last() == v@.take(i as int));
            assert(body@ =~= before + label_code(c));
        }
        i = i + 1;
    }
    assert(v@.take(v.len() as int) == v@);
    let mut r = owned("console-");
    push_str(&mut r, body.as_str());
    r
}

/// The `Name` value of a desktop entry: the trimmed connection name with
/// line breaks turned into spaces, or `Administrator` when it is blank.
pub open spec fn entry_name(name: Seq<char>) -> Seq<char> {
    let t = trim(name);
    if t.len() == 0 {
        "Administrator"@
    } else {
        t.map_values(|c: char| if c == '\n' || c == '\r' { ' ' } else { c })
    }
}

/// The body of a connection's `.desktop` entry: a hidden application entry
/// whose `StartupWMClass` pairs the administrator's windows with its icon.
pub open spec fn desktop_entry_text(name: Seq<char>, icon: Seq<char>, wm_class: Seq<char>) -> Seq<char> {
    "[Desktop Entry]\nType=Application\nName="@ + entry_name(name) + "\nIcon="@ + icon
        + "\nExec=false\nStartupWMClass="@ + wm_class + "\nNoDisplay=true\n"@
}

/// Executable [`desktop_entry_text`].
pub fn desktop_entry_content(name: &str, icon: &str, wm_class: &str) -> (r: String)
    ensures
        r@ == desktop_entry_text(name@, icon@, wm_class@),
{
    let t = trimmed_chars(name);
    let shown = if t.len() == 0 {
        owned("Administrator")
    } else {
        let mut s = String::new();
        let mut i: usize = 0;
        while i < t.len()
            invariant
                i <= t.len(),
                s@ == t@.take(i as int).map_values(
                    |c: char|
                        if c == '\n' || c == '\r' {
                            ' '
                        } else {
                            c
                        },
                ),
            decreases t.len() - i,
        {
            let c = t[i];
            let d = if c == '\n' || c == '\r' {
                ' '
            } else {
                c
            };
            s.push(d);
            assert(t@.take(i + 1).map_values(
                |c: char|
                    if c == '\n' || c == '\r' {
                        ' '
                    } else {
                        c
                    },
            ) == t@.take(i as int).map_values(
                |c: char|
                    if c == '\n' || c == '\r' {
                        ' '
                    } else {
                        c
                    },
            ).push(d));
            i = i + 1;
        }
        assert(t@.take(t.len() as int) == t@);
        s
    };
    let mut r = owned("[Desktop Entry]\nType=Application\nName=");
    push_str(&mut r, shown.as_str());
    push_str(&mut r, "\nIcon=");
    push_str(&mut r, icon);
    push_str(&mut r, "\nExec=false\nStartupWMClass=");
    push_str(&mut r, wm_class);
    push_str(&mut r, "\nNoDisplay=true\n");
    r
}

/// The file name of a connection's desktop entry: its window class with a
/// `.desktop` extension.
pub fn desktop_entry_file_name(conn_id: &str) -> (r: String)
    ensures
        r@ == window_class(conn_id@) + ".desktop"@,
{
    let mut r = wm_class(conn_id);
    push_str(&mut r, ".desktop");
    r
}

} // verus!
