//! Properties of the library as a whole, stated over the models that the
//! operations' contracts use, and proved.

use vstd::prelude::*;

use crate::connection::{duplicate_names, insert_all, with_java_home, with_pin, EntryView};
use crate::desktop::{
    canonical_pin, console_label, entry_name, label_body, lemma_label_body_chars,
    lemma_label_body_injective,
};
use crate::text::{
    ascii_lower, ascii_lowercase, decimal, ends_with, eq_ignore_ascii_case, is_ascii_alnum,
    is_ascii_hex, is_dash_or_underscore, is_white, join, lemma_join_shape, lemma_pieces,
    lemma_pieces_of_join, lemma_split_state_after, lemma_trim_by, pieces, segments, split_state,
    starts_with, trim, trim_end_by, trim_start_by, words,
};
use crate::webstart::{
    client_args, contains_seq, dangerous_flag, dir_of, file_name_of, is_path_sep, item_of,
    jar_class, jdk_options, jnlp_and_base, last_sep, last_slash, level_items, normalized_url,
    path_char, path_component, run_to_fetch, safe_vm_args, safe_words, slash_joined, strip_suffix,
    unicode_alphanumeric, unicode_lowercase, window_class, work_left, ItemView, J2seView, JarOnDisk,
    JarTaskView, UrlPartsView,
};
use crate::xml::{attr_value, has_tag, NodeView};

verus! {

// ---------------------------------------------------------------------------
// The store
// ---------------------------------------------------------------------------

/// What is saved under a key is what a lookup of that key then finds, and
/// every other key keeps its entry.
pub proof fn save_then_get(
    before: Map<Seq<char>, EntryView>,
    key: Seq<char>,
    e: EntryView,
    other: Seq<char>,
)
    ensures
        before.insert(key, e).dom().contains(key),
        before.insert(key, e)[key] == e,
        other != key ==> (before.insert(key, e).dom().contains(other) == before.dom().contains(
            other,
        ) && (before.dom().contains(other) ==> before.insert(key, e)[other] == before[other])),
{
}

/// After a delete, the deleted key is gone and every other key keeps its
/// entry.
pub proof fn delete_then_get(before: Map<Seq<char>, EntryView>, key: Seq<char>, other: Seq<char>)
    ensures
        !before.remove(key).dom().contains(key),
        other != key ==> (before.remove(key).dom().contains(other) == before.dom().contains(other)
            && (before.dom().contains(other) ==> before.remove(key)[other] == before[other])),
{
}

/// The duplicates an import reports are the names of exactly the entries
/// whose id is already saved, in the data's order: one for each such entry,
/// wherever it stands in the data (the first one included), so the import is
/// refused (unless overwriting) exactly when some entry's id is saved.
pub proof fn duplicates_are_the_saved_ids(m: Map<Seq<char>, EntryView>, data: Seq<EntryView>)
    ensures
        duplicate_names(m, data).len() > 0 <==> exists|i: int|
            0 <= i < data.len() && m.dom().contains(#[trigger] data[i].id),
        forall|i: int|
            0 <= i < data.len() && m.dom().contains(#[trigger] data[i].id) ==> duplicate_names(
                m,
                data,
            ).contains(data[i].name),
        forall|k: int|
            0 <= k < duplicate_names(m, data).len() ==> exists|i: int|
                0 <= i < data.len() && m.dom().contains(data[i].id) && data[i].name
                    == #[trigger] duplicate_names(m, data)[k],
        duplicate_names(m, data).len() <= data.len(),
    decreases data.len(),
{
    if data.len() > 0 {
        let front = data.drop_last();
        duplicates_are_the_saved_ids(m, front);
        let df = duplicate_names(m, front);
        let d = duplicate_names(m, data);
        let last = data.last();
        assert(data[data.len() - 1] == last);
        assert forall|i: int| 0 <= i < data.len() && m.dom().contains(#[trigger] data[i].id) implies d.contains(
            data[i].name,
        ) by {
            if i < front.len() {
                assert(front[i] == data[i]);
                let k = choose|k: int| 0 <= k < df.len() && df[k] == data[i].name;
                assert(d[k] == df[k]);
            } else {
                assert(d[d.len() - 1] == last.name);
            }
        }
        assert forall|k: int| 0 <= k < d.len() implies exists|i: int|
            0 <= i < data.len() && m.dom().contains(data[i].id) && data[i].name == #[trigger] d[k] by {
            if k < df.len() {
                assert(d[k] == df[k]);
                let i = choose|i: int|
                    0 <= i < front.len() && m.dom().contains(front[i].id) && front[i].name == df[k];
                assert(front[i] == data[i]);
            } else {
                assert(d[k] == last.name);
            }
        }
        if exists|i: int| 0 <= i < data.len() && m.dom().contains(#[trigger] data[i].id) {
            let i = choose|i: int| 0 <= i < data.len() && m.dom().contains(#[trigger] data[i].id);
            assert(d.contains(data[i].name));
        }
        if d.len() > 0 {
            assert(d.contains(d[0]));
        }
    }
}

/// An import stores under each id the last entry in the data with that id,
/// with the Java home given to all of them.
pub proof fn import_last_entry_wins(
    m: Map<Seq<char>, EntryView>,
    data: Seq<EntryView>,
    jh: Seq<char>,
    i: int,
)
    requires
        0 <= i < data.len(),
        forall|j: int| i < j < data.len() ==> (#[trigger] data[j]).id != data[i].id,
    ensures
        insert_all(m, data, jh).dom().contains(data[i].id),
        insert_all(m, data, jh)[data[i].id] == with_java_home(data[i], jh),
    decreases data.len(),
{
    if i < data.len() - 1 {
        let front = data.drop_last();
        assert forall|j: int| i < j < front.len() implies (#[trigger] front[j]).id != front[i].id by {
            assert(front[j] == data[j]);
        }
        import_last_entry_wins(m, front, jh, i);
        assert(front[i] == data[i]);
        assert(data[data.len() - 1].id != data[i].id);
    }
}

/// An import leaves every id that the data does not hold as it was.
pub proof fn import_keeps_other_ids(
    m: Map<Seq<char>, EntryView>,
    data: Seq<EntryView>,
    jh: Seq<char>,
    k: Seq<char>,
)
    requires
        forall|j: int| 0 <= j < data.len() ==> (#[trigger] data[j]).id != k,
    ensures
        insert_all(m, data, jh).dom().contains(k) == m.dom().contains(k),
        m.dom().contains(k) ==> insert_all(m, data, jh)[k] == m[k],
    decreases data.len(),
{
    if data.len() > 0 {
        let front = data.drop_last();
        assert forall|j: int| 0 <= j < front.len() implies (#[trigger] front[j]).id != k by {
            assert(front[j] == data[j]);
        }
        import_keeps_other_ids(m, front, jh, k);
        assert(data[data.len() - 1].id != k);
    }
}

/// Setting a pin changes only the pin: every other field of the entry is
/// kept.
pub proof fn pin_update_keeps_the_rest(e: EntryView, pin: Option<Seq<char>>)
    ensures
        with_pin(e, pin).pinned_cert_sha256 == pin,
        with_pin(e, pin).id == e.id,
        with_pin(e, pin).address == e.address,
        with_pin(e, pin).username == e.username,
        with_pin(e, pin).password == e.password,
        with_pin(e, pin).java_home == e.java_home,
        with_pin(e, pin).last_connected == e.last_connected,
{
}

// ---------------------------------------------------------------------------
// Pins
// ---------------------------------------------------------------------------

/// A canonical pin is 64 lowercase hexadecimal digits, canonicalizing it
/// again gives it back, and it matches the fingerprint it came from at the
/// launch-time comparison (which ignores ASCII case).
pub proof fn canonical_pin_is_stable(s: Seq<char>)
    requires
        canonical_pin(s) is Some,
    ensures
        ({
            let c = canonical_pin(s)->0;
            &&& c.len() == 64
            &&& forall|i: int| 0 <= i < 64 ==> !('A' <= #[trigger] c[i] && c[i] <= 'Z')
            &&& canonical_pin(c) == Some(c)
            &&& eq_ignore_ascii_case(c, trim(s))
        }),
{
    let c = canonical_pin(s)->0;
    assert forall|i: int| 0 <= i < 64 implies !('A' <= #[trigger] c[i] && c[i] <= 'Z') by {
        assert(c[i] == ascii_lower(trim(s)[i]));
    }
    // A canonical pin holds no white space, so trimming leaves it alone.
    assert(trim_start_by(c, |ch: char| crate::text::is_white(ch)) == c) by {
        assert(is_ascii_hex(c[0]));
    }
    assert(trim_end_by(c, |ch: char| crate::text::is_white(ch)) == c) by {
        assert(is_ascii_hex(c[63]));
        assert(c.last() == c[63]);
    }
    assert(ascii_lowercase(c) =~= c) by {
        assert forall|i: int| 0 <= i < c.len() implies ascii_lowercase(c)[i] == c[i] by {
            assert(c[i] == ascii_lower(trim(s)[i]));
        }
    }
    assert forall|i: int| 0 <= i < c.len() implies ascii_lower(c[i]) == ascii_lower(trim(s)[i]) by {
        assert(c[i] == ascii_lower(trim(s)[i]));
    }
}

// ---------------------------------------------------------------------------
// Names that reach paths and windows
// ---------------------------------------------------------------------------

// ---------------------------------------------------------------------------
// Names that reach windows and desktop entries
// ---------------------------------------------------------------------------

/// A window class is `launcher-` followed only by ASCII letters, digits
/// and `-`, one character for each character of the id: the same id always
/// gives the same class, and nothing in it can break the match against a
/// desktop entry.
pub proof fn window_class_is_plain(id: Seq<char>)
    ensures
        window_class(id).len() == 9 + id.len(),
        window_class(id).take(9) == "launcher-"@,
        forall|i: int|
            9 <= i < window_class(id).len() ==> is_ascii_alnum(#[trigger] window_class(id)[i])
                || window_class(id)[i] == '-',
{
    reveal_strlit("launcher-");
    assert(window_class(id).take(9) =~= "launcher-"@);
}

/// A console window label is `console-` followed only by ASCII letters,
/// digits, `-` and `_`.
pub proof fn console_label_is_plain(id: Seq<char>)
    ensures
        console_label(id).take(8) == "console-"@,
        forall|i: int|
            8 <= i < console_label(id).len() ==> is_ascii_alnum(#[trigger] console_label(id)[i])
                || console_label(id)[i] == '-' || console_label(id)[i] == '_',
{
    reveal_strlit("console-");
    assert(console_label(id).take(8) =~= "console-"@);
    lemma_label_body_chars(id);
    assert forall|i: int| 8 <= i < console_label(id).len() implies is_ascii_alnum(
        #[trigger] console_label(id)[i],
    ) || console_label(id)[i] == '-' || console_label(id)[i] == '_' by {
        assert(console_label(id)[i] == label_body(id)[i - 8]);
    }
}

/// Two different connection ids never share a console window label.
pub proof fn console_labels_differ(a: Seq<char>, b: Seq<char>)
    requires
        a != b,
    ensures
        console_label(a) != console_label(b),
{
    reveal_strlit("console-");
    if console_label(a) == console_label(b) {
        assert(label_body(a) =~= console_label(a).skip(8));
        assert(label_body(b) =~= console_label(b).skip(8));
        lemma_label_body_injective(a, b);
    }
}

// ---------------------------------------------------------------------------
// Hrefs
// ---------------------------------------------------------------------------

/// An href splits at its last separator into its directory and its file
/// name; the file name holds no separator.
pub proof fn href_splits_at_last_separator(h: Seq<char>)
    ensures
        forall|i: int| 0 <= i < file_name_of(h).len() ==> !is_path_sep(#[trigger] file_name_of(h)[i]),
        last_sep(h) >= 0 ==> h == dir_of(h) + seq![h[last_sep(h)]] + file_name_of(h),
        last_sep(h) < 0 ==> file_name_of(h) == h && dir_of(h) == Seq::<char>::empty(),
{
    lemma_last_sep_props(h);
    let k = last_sep(h);
    assert forall|i: int| 0 <= i < file_name_of(h).len() implies !is_path_sep(
        #[trigger] file_name_of(h)[i],
    ) by {
        assert(file_name_of(h)[i] == h[k + 1 + i]);
    }
    if k >= 0 {
        assert(h =~= dir_of(h) + seq![h[k]] + file_name_of(h));
    } else {
        assert(h.skip(0) == h);
    }
}

proof fn lemma_last_sep_props(s: Seq<char>)
    ensures
        -1 <= last_sep(s) < s.len(),
        last_sep(s) >= 0 ==> is_path_sep(s[last_sep(s)]),
        forall|i: int| last_sep(s) < i < s.len() ==> !is_path_sep(#[trigger] s[i]),
    decreases s.len(),
{
    if s.len() > 0 && !is_path_sep(s.last()) {
        lemma_last_sep_props(s.drop_last());
        assert forall|i: int| last_sep(s) < i < s.len() implies !is_path_sep(#[trigger] s[i]) by {
            if i < s.len() - 1 {
                assert(s[i] == s.drop_last()[i]);
            }
        }
    }
}

/// A normalized address whose path has a non-empty segment ends in the last
/// such segment, never in `/`: cutting it at its last `/` leaves the
/// directory the last segment lies in.
pub proof fn normalized_url_ends_in_last_segment(p: UrlPartsView)
    requires
        segments(p.path).len() > 0,
    ensures
        ends_with(normalized_url(p), segments(p.path).last()),
        normalized_url(p).last() != '/',
{
    let segs = segments(p.path);
    lemma_pieces(p.path, |c: char| c == '/');
    let last = segs.last();
    assert(segs[segs.len() - 1] == last);
    assert(last.len() > 0);
    let n = normalized_url(p);
    let j = join(segs, "/"@);
    let front = n.take(n.len() - j.len());
    assert(n == front + j);
    if segs.len() == 1 {
        assert(j == last);
    } else {
        assert(j == join(segs.drop_last(), "/"@) + "/"@ + last);
    }
    assert(n.skip(n.len() - last.len()) =~= last);
    assert(n.last() == last.last());
    assert(!(last[last.len() - 1] == '/'));
}

/// A normalized address keeps the parsed URL's own scheme, then `://`, its
/// host, and `:` with the port when the port is explicit; what follows is
/// the path with the same non-empty segments, each after exactly one `/`:
/// it is empty or starts with `/`, never ends with `/`, and never holds
/// `//`.
pub proof fn normalized_url_keeps_the_parts(p: UrlPartsView)
    ensures
        ({
            let n = normalized_url(p);
            let authority = p.scheme + "://"@ + (match p.host {
                Some(h) => h,
                None => Seq::empty(),
            });
            let port = match p.port {
                Some(k) => seq![':'] + decimal(k as nat),
                None => Seq::<char>::empty(),
            };
            let rest = n.skip((authority.len() + port.len()) as int);
            &&& starts_with(n, authority)
            &&& starts_with(n.skip(authority.len() as int), port)
            &&& segments(rest) == segments(p.path)
            &&& (rest.len() == 0 || rest[0] == '/')
            &&& (rest.len() == 0 || rest.last() != '/')
            &&& forall|i: int| 0 <= i < rest.len() - 1 ==> !(#[trigger] rest[i] == '/' && rest[i + 1] == '/')
        }),
{
    reveal_strlit("/");
    let n = normalized_url(p);
    let authority = p.scheme + "://"@ + (match p.host {
        Some(h) => h,
        None => Seq::empty(),
    });
    let port = match p.port {
        Some(k) => seq![':'] + decimal(k as nat),
        None => Seq::<char>::empty(),
    };
    let segs = segments(p.path);
    let sj = slash_joined(segs);
    assert(n == authority + port + sj);
    assert(n.take(authority.len() as int) =~= authority);
    assert(n.skip(authority.len() as int).take(port.len() as int) =~= port);
    let rest = n.skip((authority.len() + port.len()) as int);
    assert(rest =~= sj);
    lemma_pieces(p.path, |c: char| c == '/');
    if segs.len() == 0 {
        assert(sj =~= Seq::<char>::empty());
        assert(segments(Seq::<char>::empty()) =~= Seq::<Seq<char>>::empty());
    } else {
        let j = join(segs, seq!['/']);
        assert("/"@ == seq!['/']);
        assert(sj == seq!['/'] + j);
        lemma_pieces_of_join(segs, '/', |c: char| c == '/');
        assert forall|i: int| 0 <= i < segs.len() implies (#[trigger] segs[i]).len() > 0 && forall|
            k: int,
        | 0 <= k < segs[i].len() ==> #[trigger] segs[i][k] != '/' by {
            assert(segs[i] == pieces(p.path, |c: char| c == '/')[i]);
        }
        lemma_join_shape(segs, '/');
        let e = Seq::<char>::empty();
        assert(split_state(seq!['/'], |c: char| c == '/') == split_state(e, |c: char| c == '/')) by {
            assert(seq!['/'].drop_last() =~= e);
        }
        lemma_split_state_after(seq!['/'], e, j, |c: char| c == '/');
        assert(e + j =~= j);
        assert(segments(sj) == pieces(j, |c: char| c == '/'));
        assert forall|i: int| 0 <= i < rest.len() - 1 implies !(#[trigger] rest[i] == '/' && rest[i
            + 1] == '/') by {
            if i == 0 {
                assert(rest[1] == j[0]);
            } else {
                assert(rest[i] == j[i - 1] && rest[i + 1] == j[i]);
            }
        }
        assert(rest.last() == j.last());
    }
}

/// The base that a JNLP's hrefs resolve against is a prefix of the JNLP's
/// own URL.
pub proof fn href_base_is_prefix_of_jnlp(normalized: Seq<char>, parsed: crate::webstart::UrlPartsView)
    requires
        jnlp_and_base(normalized, parsed) is Some,
    ensures
        ({
            let (jnlp, base) = jnlp_and_base(normalized, parsed)->0;
            base.len() <= jnlp.len() && jnlp.take(base.len() as int) == base
        }),
{
    let (jnlp, base) = jnlp_and_base(normalized, parsed)->0;
    if crate::webstart::names_jnlp_file(parsed.path) {
        lemma_last_slash(normalized);
        assert(jnlp.take(base.len() as int) =~= base);
    } else {
        assert(jnlp.take(base.len() as int) =~= base);
    }
}

proof fn lemma_last_slash(s: Seq<char>)
    ensures
        -1 <= last_slash(s) < s.len(),
    decreases s.len(),
{
    if s.len() > 0 && s.last() != '/' {
        lemma_last_slash(s.drop_last());
    }
}

// ---------------------------------------------------------------------------
// Arguments
// ---------------------------------------------------------------------------

/// The administrator's argument list keeps the JNLP arguments first, in
/// document order; the credentials come after them, and a password is
/// never passed without a username (it would take the username's place).
pub proof fn client_args_keep_jnlp_order(
    jnlp: Seq<Seq<char>>,
    username: Option<Seq<char>>,
    password: Option<Seq<char>>,
)
    ensures
        client_args(jnlp, username, password).take(jnlp.len() as int) == jnlp,
        username is None ==> client_args(jnlp, username, password) == jnlp,
        client_args(jnlp, username, password).len() == jnlp.len() + (if username is Some {
            1int + (if password is Some {
                1int
            } else {
                0int
            })
        } else {
            0int
        }),
{
    assert(client_args(jnlp, username, password).take(jnlp.len() as int) =~= jnlp);
}

/// No JVM argument that survives sanitizing is a flag that could run
/// arbitrary code, and sanitizing keeps the surviving words in order.
pub proof fn safe_words_are_safe(ws: Seq<Seq<char>>)
    ensures
        forall|i: int|
            0 <= i < safe_words(ws).len() ==> !dangerous_flag(
                unicode_lowercase(#[trigger] safe_words(ws)[i]),
            ),
        safe_words(ws).len() <= ws.len(),
    decreases ws.len(),
{
    if ws.len() > 0 {
        safe_words_are_safe(ws.drop_last());
    }
}

/// Sanitizing a path component a second time gives it back, when it is
/// already its own lowercase and holds no `_`. (A `.` inside the input
/// becomes `_`, which a second pass turns into `-`: `a.b` gives `a_b` and
/// then `a-b`; those inputs are left out.)
pub proof fn path_component_is_stable(s: Seq<char>)
    requires
        unicode_lowercase(path_component(s)) == path_component(s),
        forall|i: int| 0 <= i < path_component(s).len() ==> #[trigger] path_component(s)[i] != '_',
    ensures
        path_component(path_component(s)) == path_component(s),
{
    let r = path_component(s);
    let dash = |c: char| is_dash_or_underscore(c);
    let mapped = unicode_lowercase(s).map_values(|c: char| path_char(c));
    lemma_trim_by(mapped, dash);
    let again = unicode_lowercase(r).map_values(|c: char| path_char(c));
    assert forall|i: int| 0 <= i < r.len() implies #[trigger] again[i] == r[i] by {
        let j = choose|j: int| 0 <= j < mapped.len() && mapped[j] == #[trigger] r[i];
        assert(mapped[j] == path_char(unicode_lowercase(s)[j]));
        assert(r[i] != '_');
        assert(unicode_alphanumeric(r[i]) || r[i] == '-');
        assert(again[i] == path_char(r[i]));
    }
    assert(again =~= r);
    if r.len() > 0 {
        assert(!dash(r[0]) && !dash(r.last()));
        assert(trim_start_by(r, dash) == r);
        assert(trim_end_by(r, dash) == r);
    } else {
        assert(trim_start_by(r, dash) == r);
        assert(trim_end_by(r, dash) == r);
    }
}

/// Whether a word, once lowercased, starts with none of the six flags that
/// could run code: `-javaagent:`, `-agentpath:`, `-agentlib:`,
/// `-xbootclasspath`, `-xx:onoutofmemoryerror`, `-xx:onerror`.
pub open spec fn harmless_jvm_word(w: Seq<char>) -> bool {
    let l = unicode_lowercase(w);
    !(starts_with(l, "-javaagent:"@) || starts_with(l, "-agentpath:"@) || starts_with(
        l,
        "-agentlib:"@,
    ) || starts_with(l, "-xbootclasspath"@) || starts_with(l, "-xx:onoutofmemoryerror"@)
        || starts_with(l, "-xx:onerror"@))
}

/// Sanitizing JVM arguments keeps exactly the harmless words (see
/// [`harmless_jvm_word`]), every one of them and in order, joined by single
/// spaces: nothing else is dropped.
pub proof fn vm_args_keep_every_harmless_word(args: Seq<char>)
    ensures
        safe_vm_args(args) == join(words(args).filter(|w: Seq<char>| harmless_jvm_word(w)), " "@),
{
    safe_words_are_the_harmless_ones(words(args));
}

proof fn safe_words_are_the_harmless_ones(ws: Seq<Seq<char>>)
    ensures
        safe_words(ws) == ws.filter(|w: Seq<char>| harmless_jvm_word(w)),
    decreases ws.len(),
{
    reveal(Seq::filter);
    if ws.len() > 0 {
        safe_words_are_the_harmless_ones(ws.drop_last());
        assert(dangerous_flag(unicode_lowercase(ws.last())) == !harmless_jvm_word(ws.last()));
    }
}

/// Each kept word is one of the words, and keeping the safe words of the
/// kept words keeps them all.
proof fn lemma_safe_words_kept(ws: Seq<Seq<char>>)
    ensures
        forall|i: int|
            0 <= i < safe_words(ws).len() ==> exists|j: int|
                0 <= j < ws.len() && ws[j] == #[trigger] safe_words(ws)[i],
        safe_words(safe_words(ws)) == safe_words(ws),
    decreases ws.len(),
{
    if ws.len() > 0 {
        let front = ws.drop_last();
        lemma_safe_words_kept(front);
        let sf = safe_words(front);
        assert forall|i: int| 0 <= i < safe_words(ws).len() implies exists|j: int|
            0 <= j < ws.len() && ws[j] == #[trigger] safe_words(ws)[i] by {
            if i < sf.len() {
                assert(safe_words(ws)[i] == sf[i]);
                let j = choose|j: int| 0 <= j < front.len() && front[j] == sf[i];
                assert(ws[j] == front[j]);
            } else {
                assert(ws[ws.len() - 1] == safe_words(ws)[i]);
            }
        }
        if !dangerous_flag(unicode_lowercase(ws.last())) {
            let sw = sf.push(ws.last());
            assert(sw.drop_last() =~= sf);
        }
    }
}

/// Sanitizing JVM arguments a second time changes nothing.
pub proof fn safe_vm_args_is_stable(args: Seq<char>)
    ensures
        safe_vm_args(safe_vm_args(args)) == safe_vm_args(args),
{
    reveal_strlit(" ");
    let ws = words(args);
    let sw = safe_words(ws);
    lemma_pieces(args, |c: char| is_white(c));
    lemma_safe_words_kept(ws);
    assert forall|i: int| 0 <= i < sw.len() implies (#[trigger] sw[i]).len() > 0 && forall|j: int|
        0 <= j < sw[i].len() ==> !is_white(#[trigger] sw[i][j]) by {
        let k = choose|k: int| 0 <= k < ws.len() && ws[k] == sw[i];
        assert(ws[k] == words(args)[k]);
    }
    assert(is_white(' '));
    lemma_pieces_of_join(sw, ' ', |c: char| is_white(c));
    assert(" "@ == seq![' ']);
    assert(words(join(sw, " "@)) == sw);
}

/// Whether a `<j2se>` resource is one whose JVM arguments go into
/// `JDK_JAVA_OPTIONS`: its version contains `1.9`, and it has JVM arguments
/// of which something survives sanitizing.
pub open spec fn options_resource(j: J2seView) -> bool {
    &&& exists|k: int| 0 <= k && k + 3 <= j.version.len() && #[trigger] j.version.subrange(k, k + 3) == "1.9"@
    &&& j.java_vm_args is Some
    &&& safe_vm_args(j.java_vm_args->0).len() > 0
}

/// `JDK_JAVA_OPTIONS` comes only from a `<j2se>` resource whose version
/// contains `1.9`: it is the sanitized JVM arguments of the last such
/// resource that has any, and there is none when no resource qualifies.
pub proof fn jdk_options_come_from_a_java_9_resource(j2ses: Seq<J2seView>)
    ensures
        jdk_options(j2ses) is None <==> forall|i: int| 0 <= i < j2ses.len() ==> !options_resource(#[trigger] j2ses[i]),
        jdk_options(j2ses) matches Some(o) ==> exists|i: int|
            0 <= i < j2ses.len() && options_resource(#[trigger] j2ses[i]) && o == safe_vm_args(
                j2ses[i].java_vm_args->0,
            ) && forall|k: int| i < k < j2ses.len() ==> !options_resource(#[trigger] j2ses[k]),
    decreases j2ses.len(),
{
    reveal_strlit("1.9");
    if j2ses.len() > 0 {
        let front = j2ses.drop_last();
        let last = j2ses.last();
        jdk_options_come_from_a_java_9_resource(front);
        assert(j2ses[j2ses.len() - 1] == last);
        let v = last.version;
        assert("1.9"@.len() == 3);
        if contains_seq(v, "1.9"@) {
            let k = choose|k: int| 0 <= k && k + "1.9"@.len() <= v.len() && #[trigger] v.subrange(k, k + "1.9"@.len()) == "1.9"@;
            assert(v.subrange(k, k + 3) == "1.9"@);
        }
        if exists|k: int| 0 <= k && k + 3 <= v.len() && #[trigger] v.subrange(k, k + 3) == "1.9"@ {
            let k = choose|k: int| 0 <= k && k + 3 <= v.len() && #[trigger] v.subrange(k, k + 3) == "1.9"@;
            assert(v.subrange(k, k + "1.9"@.len()) == "1.9"@);
        }
        assert(options_resource(last) == (contains_seq(last.version, "1.9"@) && last.java_vm_args is Some
            && safe_vm_args(last.java_vm_args->0).len() > 0));
        assert forall|i: int| 0 <= i < front.len() implies front[i] == j2ses[i] by {}
        if !options_resource(last) {
            match jdk_options(front) {
                Some(o) => {
                    let i = choose|i: int|
                        0 <= i < front.len() && options_resource(#[trigger] front[i]) && o == safe_vm_args(
                            front[i].java_vm_args->0,
                        ) && forall|k: int| i < k < front.len() ==> !options_resource(#[trigger] front[k]);
                    assert(j2ses[i] == front[i]);
                    assert forall|k: int| i < k < j2ses.len() implies !options_resource(#[trigger] j2ses[k]) by {
                        if k < front.len() {
                            assert(j2ses[k] == front[k]);
                        }
                    }
                },
                None => {},
            }
            if jdk_options(front) is None {
                assert forall|i: int| 0 <= i < j2ses.len() implies !options_resource(#[trigger] j2ses[i]) by {
                    if i < front.len() {
                        assert(j2ses[i] == front[i]);
                    }
                }
            } else {
                let i = choose|i: int| 0 <= i < front.len() && options_resource(#[trigger] front[i]);
                assert(j2ses[i] == front[i]);
            }
        }
    }
}

// ---------------------------------------------------------------------------
// Cached jars
// ---------------------------------------------------------------------------

/// A missing jar is always downloaded and never evidence of another
/// engine; a jar is foreign only when it differs and is a core jar, so an
/// extension jar never stops a launch; a foreign jar is always downloaded.
pub proof fn foreign_only_for_differing_core_jars(
    on_disk: JarOnDisk,
    declared: Option<Seq<char>>,
    is_core: bool,
)
    ensures
        on_disk is Missing ==> jar_class(on_disk, declared, is_core) == (true, false),
        jar_class(on_disk, declared, is_core).1 ==> jar_class(on_disk, declared, is_core).0
            && is_core,
        !is_core ==> !jar_class(on_disk, declared, is_core).1,
        declared is None && !(on_disk is Missing) ==> jar_class(on_disk, declared, is_core) == (
            false,
            false,
        ),
{
}

/// Every jar a level of `<resources>` contributes carries the level's
/// core tag and folder: the jars of an extension are never core jars and
/// go in the extension's folder.
pub proof fn level_jars_carry_the_level_tag(
    ns: Seq<NodeView>,
    r: int,
    base: Seq<char>,
    ext: Option<Seq<char>>,
    is_core: bool,
    upto: int,
)
    ensures
        forall|i: int|
            0 <= i < level_items(ns, r, base, ext, is_core, upto).len() ==> (#[trigger] level_items(
                ns,
                r,
                base,
                ext,
                is_core,
                upto,
            )[i] matches ItemView::Jar(t) ==> t.is_core == is_core && t.extension == ext),
    decreases upto - r,
{
    if upto > r + 1 {
        level_jars_carry_the_level_tag(ns, r, base, ext, is_core, upto - 1);
        let j = upto - 1;
        let rest = level_items(ns, r, base, ext, is_core, upto - 1);
        if ns[j].parent == Some(r as usize) && item_of(ns[j], base, ext, is_core) is Some {
            assert forall|i: int|
                0 <= i < level_items(ns, r, base, ext, is_core, upto).len() implies (
            #[trigger] level_items(ns, r, base, ext, is_core, upto)[i] matches ItemView::Jar(t)
                ==> t.is_core == is_core && t.extension == ext) by {
                if i < rest.len() {
                    assert(level_items(ns, r, base, ext, is_core, upto)[i] == rest[i]);
                }
            }
        }
    }
}

/// Item `it` is what the `href` of element `n` gives at a level whose base
/// is `base`: its URL is `base`, `/` and the href as written; a jar also
/// takes the href's last component as file name, the `sha256` attribute as
/// hash and the level's tag and folder; an extension takes that last
/// component without `.jnlp` as folder and extends `base` by the href's
/// directory.
pub open spec fn resolved_from(
    n: NodeView,
    it: ItemView,
    base: Seq<char>,
    ext: Option<Seq<char>>,
    is_core: bool,
) -> bool {
    &&& n.element
    &&& attr_value(n.attributes, "href"@) matches Some(h)
    &&& match it {
        ItemView::Jar(t) => {
            &&& n.tag == "jar"@
            &&& t.url == base + "/"@ + h
            &&& t.file_name == file_name_of(h)
            &&& t.hash == attr_value(n.attributes, "sha256"@)
            &&& t.is_core == is_core
            &&& t.extension == ext
        },
        ItemView::Extension { url, name, base_url } => {
            &&& n.tag == "extension"@
            &&& url == base + "/"@ + h
            &&& name == strip_suffix(file_name_of(h), ".jnlp"@)
            &&& base_url == (if dir_of(h).len() == 0 {
                base
            } else {
                base + "/"@ + dir_of(h)
            })
        },
    }
}

/// Item `i` of a level of `<resources>` comes from a child `j` of that
/// element (in document order) as [`resolved_from`] says: in particular
/// every jar's URL is the level's base, `/` and its href as written, for
/// core jars and extension jars alike. The result is that child.
pub proof fn level_item_source(
    ns: Seq<NodeView>,
    r: int,
    base: Seq<char>,
    ext: Option<Seq<char>>,
    is_core: bool,
    upto: int,
    i: int,
) -> (j: int)
    requires
        0 <= i < level_items(ns, r, base, ext, is_core, upto).len(),
    ensures
        r < j < upto,
        ns[j].parent is Some && ns[j].parent->0 == r as usize,
        resolved_from(ns[j], level_items(ns, r, base, ext, is_core, upto)[i], base, ext, is_core),
    decreases upto - r,
{
    let k = upto - 1;
    let rest = level_items(ns, r, base, ext, is_core, upto - 1);
    let all = level_items(ns, r, base, ext, is_core, upto);
    if i < rest.len() {
        assert(all[i] == rest[i]);
        level_item_source(ns, r, base, ext, is_core, upto - 1, i)
    } else {
        assert(ns[k].parent == Some(r as usize) && item_of(ns[k], base, ext, is_core) is Some);
        assert(all[i] == item_of(ns[k], base, ext, is_core)->0);
        k
    }
}

/// Every `<jar>` child of a `<resources>` element whose href names a safe
/// file contributes its task to the level: URL the level's base, `/` and
/// the href, file name the href's last component, hash its `sha256`, and
/// the level's tag and folder. No such jar is skipped.
pub proof fn every_safe_jar_is_collected(
    ns: Seq<NodeView>,
    r: int,
    base: Seq<char>,
    ext: Option<Seq<char>>,
    is_core: bool,
    upto: int,
    j: int,
)
    requires
        r < j < upto,
        ns[j].parent is Some && ns[j].parent->0 == r as usize,
        ns[j].element,
        ns[j].tag == "jar"@,
        attr_value(ns[j].attributes, "href"@) is Some,
        crate::webstart::safe_basename(file_name_of(attr_value(ns[j].attributes, "href"@)->0)),
    ensures
        level_items(ns, r, base, ext, is_core, upto).contains(
            ItemView::Jar(
                JarTaskView {
                    url: base + "/"@ + attr_value(ns[j].attributes, "href"@)->0,
                    extension: ext,
                    file_name: file_name_of(attr_value(ns[j].attributes, "href"@)->0),
                    hash: attr_value(ns[j].attributes, "sha256"@),
                    is_core,
                },
            ),
        ),
    decreases upto - r,
{
    let h = attr_value(ns[j].attributes, "href"@)->0;
    let it = ItemView::Jar(
        JarTaskView {
            url: base + "/"@ + h,
            extension: ext,
            file_name: file_name_of(h),
            hash: attr_value(ns[j].attributes, "sha256"@),
            is_core,
        },
    );
    let all = level_items(ns, r, base, ext, is_core, upto);
    let rest = level_items(ns, r, base, ext, is_core, upto - 1);
    if j < upto - 1 {
        every_safe_jar_is_collected(ns, r, base, ext, is_core, upto - 1, j);
        let k = choose|k: int| 0 <= k < rest.len() && rest[k] == it;
        if ns[upto - 1].parent == Some(r as usize) && item_of(ns[upto - 1], base, ext, is_core) is Some {
            assert(all[k] == rest[k]);
        }
        assert(all[k] == it);
    } else {
        assert(ns[j].parent == Some(r as usize));
        assert(has_tag(ns[j], "jar"@));
        assert(item_of(ns[j], base, ext, is_core) == Some(it));
        assert(all[all.len() - 1] == it);
    }
}

/// A collection run keeps the jars collected before it, and every jar it
/// adds is a jar item of one of the levels it walks, as given: the task is
/// that item unchanged.
pub proof fn collected_jars_come_from_the_levels(tasks: Seq<JarTaskView>, levels: Seq<Seq<ItemView>>)
    ensures
        ({
            let out = run_to_fetch(tasks, levels).0;
            &&& out.len() >= tasks.len()
            &&& out.take(tasks.len() as int) == tasks
            &&& forall|i: int|
                tasks.len() <= i < out.len() ==> exists|a: int, b: int|
                    0 <= a < levels.len() && 0 <= b < levels[a].len() && levels[a][b]
                        == ItemView::Jar(#[trigger] out[i])
        }),
    decreases work_left(levels),
{
    if levels.len() == 0 {
        assert(tasks.take(tasks.len() as int) =~= tasks);
    } else if levels.last().len() == 0 {
        collected_jars_come_from_the_levels(tasks, levels.drop_last());
        let out = run_to_fetch(tasks, levels).0;
        assert forall|i: int| tasks.len() <= i < out.len() implies exists|a: int, b: int|
            0 <= a < levels.len() && 0 <= b < levels[a].len() && levels[a][b] == ItemView::Jar(
                #[trigger] out[i],
            ) by {
            let (a, b) = choose|a: int, b: int|
                0 <= a < levels.drop_last().len() && 0 <= b < levels.drop_last()[a].len()
                    && levels.drop_last()[a][b] == ItemView::Jar(out[i]);
            assert(levels[a] == levels.drop_last()[a]);
        }
    } else {
        let top = levels.last();
        let rest = levels.drop_last().push(top.drop_first());
        assert(rest.drop_last() == levels.drop_last());
        assert(work_left(rest) < work_left(levels));
        match top[0] {
            ItemView::Jar(t) => {
                collected_jars_come_from_the_levels(tasks.push(t), rest);
                let out = run_to_fetch(tasks, levels).0;
                assert(out == run_to_fetch(tasks.push(t), rest).0);
                assert(out.take(tasks.len() as int) =~= tasks.push(t).take(tasks.len() as int));
                assert(tasks.push(t).take(tasks.len() as int) =~= tasks);
                assert forall|i: int| tasks.len() <= i < out.len() implies exists|a: int, b: int|
                    0 <= a < levels.len() && 0 <= b < levels[a].len() && levels[a][b]
                        == ItemView::Jar(#[trigger] out[i]) by {
                    if i == tasks.len() {
                        let pushed = tasks.push(t);
                        assert(out.take(pushed.len() as int) == pushed);
                        assert(out[i] == pushed[i]);
                        assert(levels[levels.len() - 1][0] == top[0]);
                    } else {
                        let (a, b) = choose|a: int, b: int|
                            0 <= a < rest.len() && 0 <= b < rest[a].len() && rest[a][b]
                                == ItemView::Jar(out[i]);
                        if a < levels.len() - 1 {
                            assert(rest[a] == levels[a]);
                        } else {
                            assert(rest[a][b] == top[b + 1]);
                            assert(levels[levels.len() - 1][b + 1] == top[b + 1]);
                        }
                    }
                }
            },
            ItemView::Extension { .. } => {
                assert(tasks.take(tasks.len() as int) =~= tasks);
            },
        }
    }
}

/// A desktop entry's `Name` value never holds a line break, whatever the
/// connection is called, so a name cannot inject a key.
pub proof fn entry_name_is_one_line(name: Seq<char>)
    ensures
        forall|i: int|
            0 <= i < entry_name(name).len() ==> #[trigger] entry_name(name)[i] != '\n'
                && entry_name(name)[i] != '\r',
{
    reveal_strlit("Administrator");
}

} // verus!
