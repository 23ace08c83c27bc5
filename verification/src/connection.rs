//! Saved connections: the entry type and the in-memory store keyed by id.
//!
//! The store is modelled as a map from key to entry. Persisting it (the JSON
//! file with its private permissions and atomic replace) is done by the
//! caller after each change; the rules of each change are here.

use vstd::prelude::*;
use home::env::Env;

use crate::webstart::{isolated_folder, isolated_folder_name, path_component, sanitize_for_path};
use crate::text::{
    chars_of, is_ascii_alnum, is_ascii_alnum_char, owned, push_str, str_eq, trim, trimmed, trimmed_chars, views,
};

verus! {

// ---------------------------------------------------------------------------
// Outside calls
// ---------------------------------------------------------------------------

/// The text form of a version-4 UUID: 36 characters, lowercase hexadecimal
/// digits in groups of 8-4-4-4-12 separated by hyphens, with the version
/// digit `4` at position 14 and the variant digit (`8`, `9`, `a` or `b`) at
/// position 19.
pub open spec fn uuid_v4_text(s: Seq<char>) -> bool {
    &&& s.len() == 36
    &&& forall|i: int|
        0 <= i < 36 ==> if i == 8 || i == 13 || i == 18 || i == 23 {
            s[i] == '-'
        } else {
            ('0' <= s[i] && s[i] <= '9') || ('a' <= s[i] && s[i] <= 'f')
        }
    &&& s[14] == '4'
    &&& (s[19] == '8' || s[19] == '9' || s[19] == 'a' || s[19] == 'b')
}

/// Calls `uuid::Uuid::new_v4()` and formats it with `to_string()`. The
/// contract claims what the crate's `Display` writes for a version-4 UUID
/// (hyphenated lowercase hex with the version and variant bits set); which
/// UUID comes out is random and is not stated.
#[verifier::external_body]
fn new_uuid() -> (s: String)
    ensures
        uuid_v4_text(s@),
{
    uuid::Uuid::new_v4().to_string()
}

/// Reads `JAVA_HOME` through `home::env::OS_ENV.var_os`, keeping it only when
/// it is valid Unicode. The value comes from the process environment, so
/// nothing is stated of it.
#[verifier::external_body]
fn java_home_from_env() -> (r: Option<String>) {
    home::env::OS_ENV.var_os("JAVA_HOME").and_then(|v| v.to_str().map(String::from))
}

// ---------------------------------------------------------------------------
// Entries
// ---------------------------------------------------------------------------

/// One saved connection.
#[derive(Debug)]
pub struct ConnectionEntry {
    pub address: String,
    pub heap_size: String,
    pub id: String,
    pub java_home: String,
    pub java_args: Option<String>,
    pub name: String,
    pub username: Option<String>,
    pub password: Option<String>,
    pub group: String,
    pub notes: String,
    pub donotcache: bool,
    pub last_connected: Option<i64>,
    pub show_console: bool,
    pub engine_type: String,
    /// Trusted server leaf-certificate SHA-256 (hex). `None` until the operator
    /// has trusted a certificate on first launch.
    pub pinned_cert_sha256: Option<String>,
    /// Path (or `preset:<name>`) of this connection's icon; `None` or empty
    /// means the bundled default.
    pub icon_path: Option<String>,
    /// Picker state the icon was composed from; never used to find the icon.
    pub icon_glyph: Option<String>,
    pub icon_color: Option<String>,
}

/// The mathematical value of a [`ConnectionEntry`].
pub struct EntryView {
    pub address: Seq<char>,
    pub heap_size: Seq<char>,
    pub id: Seq<char>,
    pub java_home: Seq<char>,
    pub java_args: Option<Seq<char>>,
    pub name: Seq<char>,
    pub username: Option<Seq<char>>,
    pub password: Option<Seq<char>>,
    pub group: Seq<char>,
    pub notes: Seq<char>,
    pub donotcache: bool,
    pub last_connected: Option<i64>,
    pub show_console: bool,
    pub engine_type: Seq<char>,
    pub pinned_cert_sha256: Option<Seq<char>>,
    pub icon_path: Option<Seq<char>>,
    pub icon_glyph: Option<Seq<char>>,
    pub icon_color: Option<Seq<char>>,
}

/// The view of an optional string.
pub open spec fn opt_view(o: Option<String>) -> Option<Seq<char>> {
    match o {
        Some(s) => Some(s@),
        None => None,
    }
}

impl View for ConnectionEntry {
    type V = EntryView;

    open spec fn view(&self) -> EntryView {
        EntryView {
            address: self.address@,
            heap_size: self.heap_size@,
            id: self.id@,
            java_home: self.java_home@,
            java_args: opt_view(self.java_args),
            name: self.name@,
            username: opt_view(self.username),
            password: opt_view(self.password),
            group: self.group@,
            notes: self.notes@,
            donotcache: self.donotcache,
            last_connected: self.last_connected,
            show_console: self.show_console,
            engine_type: self.engine_type@,
            pinned_cert_sha256: opt_view(self.pinned_cert_sha256),
            icon_path: opt_view(self.icon_path),
            icon_glyph: opt_view(self.icon_glyph),
            icon_color: opt_view(self.icon_color),
        }
    }
}

/// A copy of an optional string.
pub fn clone_opt(o: &Option<String>) -> (r: Option<String>)
    ensures
        opt_view(r) == opt_view(*o),
{
    match o {
        Some(s) => Some(s.clone()),
        None => None,
    }
}

impl ConnectionEntry {
    /// A copy of this entry.
    pub fn duplicate(&self) -> (r: ConnectionEntry)
        ensures
            r@ == self@,
    {
        ConnectionEntry {
            address: self.address.clone(),
            heap_size: self.heap_size.clone(),
            id: self.id.clone(),
            java_home: self.java_home.clone(),
            java_args: clone_opt(&self.java_args),
            name: self.name.clone(),
            username: clone_opt(&self.username),
            password: clone_opt(&self.password),
            group: self.group.clone(),
            notes: self.notes.clone(),
            donotcache: self.donotcache,
            last_connected: self.last_connected,
            show_console: self.show_console,
            engine_type: self.engine_type.clone(),
            pinned_cert_sha256: clone_opt(&self.pinned_cert_sha256),
            icon_path: clone_opt(&self.icon_path),
            icon_glyph: clone_opt(&self.icon_glyph),
            icon_color: clone_opt(&self.icon_color),
        }
    }
}

/// The group a connection belongs to when its saved data names none.
pub fn get_default_group() -> (s: String)
    ensures
        s@ == "Default"@,
{
    owned("Default")
}

/// The notes of a connection whose saved data has none.
pub fn get_default_notes() -> (s: String)
    ensures
        s@ == Seq::<char>::empty(),
{
    String::new()
}

/// Whether a connection whose saved data does not say keeps its jars out of
/// the shared cache.
pub fn get_default_donotcache() -> (b: bool)
    ensures
        b == false,
{
    false
}

/// The engine type of a connection whose saved data names none.
pub fn get_default_engine_type() -> (s: String)
    ensures
        s@ == "Open Integration Engine"@,
{
    owned("Open Integration Engine")
}

/// Default `java_home` for a new connection: `JAVA_HOME` when it is set (and
/// valid Unicode), otherwise empty, so that a launch uses `java` on `PATH`.
/// Nothing is stated of the value, which comes from the environment.
pub fn find_java_home() -> (s: String) {
    match java_home_from_env() {
        Some(jh) => jh,
        None => String::new(),
    }
}

impl Default for ConnectionEntry {
    /// A fresh connection: empty address and name, a new random id, heap
    /// `512m`, empty extra JVM arguments, no credentials, the default group,
    /// notes, cache setting and engine type, and no pin or icon. Its
    /// `java_home` comes from the environment (see [`find_java_home`]).
    fn default() -> (e: Self)
        ensures
            e@.address == Seq::<char>::empty(),
            e@.heap_size == "512m"@,
            uuid_v4_text(e@.id),
            e@.java_args == Some(Seq::<char>::empty()),
            e@.name == Seq::<char>::empty(),
            e@.username is None,
            e@.password is None,
            e@.group == "Default"@,
            e@.notes == Seq::<char>::empty(),
            e@.donotcache == false,
            e@.last_connected is None,
            e@.show_console == false,
            e@.engine_type == "Open Integration Engine"@,
            e@.pinned_cert_sha256 is None,
            e@.icon_path is None,
            e@.icon_glyph is None,
            e@.icon_color is None,
    {
        ConnectionEntry {
            address: String::new(),
            heap_size: owned("512m"),
            id: new_uuid(),
            java_home: find_java_home(),
            java_args: Some(String::new()),
            name: String::new(),
            username: None,
            password: None,
            group: get_default_group(),
            notes: get_default_notes(),
            donotcache: get_default_donotcache(),
            last_connected: None,
            show_console: false,
            engine_type: get_default_engine_type(),
            pinned_cert_sha256: None,
            icon_path: None,
            icon_glyph: None,
            icon_color: None,
        }
    }
}

/// The id, as used in file names (icons) and window labels: ASCII letters,
/// digits, `-` and `_` are kept and every other character becomes `_`.
pub open spec fn id_char(c: char) -> char {
    if is_ascii_alnum(c) || c == '-' || c == '_' {
        c
    } else {
        '_'
    }
}

/// [`id_char`] applied to every character.
pub open spec fn sanitized_id(s: Seq<char>) -> Seq<char> {
    s.map_values(|c: char| id_char(c))
}

/// Executable [`sanitized_id`].
pub fn sanitize_id(id: &str) -> (r: String)
    ensures
        r@ == sanitized_id(id@),
{
    let v = chars_of(id);
    let mut r = String::new();
    let mut i: usize = 0;
    while i < v.len()
        invariant
            v@ == id@,
            i <= v.len(),
            r@ == sanitized_id(v@.take(i as int)),
        decreases v.len() - i,
    {
        let c = v[i];
        let d = if is_ascii_alnum_char(c) || c == '-' || c == '_' {
            c
        } else {
            '_'
        };
        r.push(d);
        assert(sanitized_id(v@.take(i + 1)) == sanitized_id(v@.take(i as int)).push(id_char(c)));
        i = i + 1;
    }
    assert(v@.take(v.len() as int) == v@);
    r
}

// ---------------------------------------------------------------------------
// The keyed collection
// ---------------------------------------------------------------------------

/// The map that a sequence of `(key, entry)` pairs denotes; a later pair for
/// the same key wins.
pub open spec fn map_of(s: Seq<(String, ConnectionEntry)>) -> Map<Seq<char>, EntryView>
    decreases s.len(),
{
    if s.len() == 0 {
        Map::empty()
    } else {
        map_of(s.drop_last()).insert(s.last().0@, s.last().1@)
    }
}

/// No key occurs twice.
pub open spec fn keys_distinct(s: Seq<(String, ConnectionEntry)>) -> bool {
    forall|i: int, j: int| 0 <= i < j < s.len() ==> s[i].0@ != s[j].0@
}

/// With distinct keys, the map holds exactly the keys of the pairs, each
/// with its pair's entry.
proof fn lemma_map_of(s: Seq<(String, ConnectionEntry)>)
    requires
        keys_distinct(s),
    ensures
        forall|k: Seq<char>|
            #![trigger map_of(s).dom().contains(k)]
            map_of(s).dom().contains(k) <==> exists|i: int| 0 <= i < s.len() && s[i].0@ == k,
        forall|i: int|
            #![trigger s[i]]
            0 <= i < s.len() ==> map_of(s).dom().contains(s[i].0@) && map_of(s)[s[i].0@]
                == s[i].1@,
    decreases s.len(),
{
    if s.len() > 0 {
        let t = s.drop_last();
        lemma_map_of(t);
        assert forall|k: Seq<char>| map_of(s).dom().contains(k) implies exists|i: int|
            0 <= i < s.len() && s[i].0@ == k by {
            if k != s.last().0@ {
                assert(map_of(t).dom().contains(k));
                let i = choose|i: int| 0 <= i < t.len() && t[i].0@ == k;
                assert(s[i] == t[i]);
                assert(0 <= i < s.len() && s[i].0@ == k);
            } else {
                assert(s[s.len() - 1].0@ == k);
            }
        }
        assert forall|k: Seq<char>| (exists|i: int| 0 <= i < s.len() && s[i].0@ == k) implies map_of(
            s,
        ).dom().contains(k) by {
            let i = choose|i: int| 0 <= i < s.len() && s[i].0@ == k;
            if i < t.len() {
                assert(t[i] == s[i]);
            }
        }
        assert forall|i: int| 0 <= i < s.len() implies map_of(s).dom().contains(s[i].0@)
            && map_of(s)[s[i].0@] == s[i].1@ by {
            if i < t.len() {
                assert(t[i] == s[i]);
                assert(s[i].0@ != s[s.len() - 1].0@);
            }
        }
    }
}

/// Two distinct-key sequences with the same keys and entries denote the same map.
proof fn lemma_map_of_ext(s: Seq<(String, ConnectionEntry)>, m: Map<Seq<char>, EntryView>)
    requires
        keys_distinct(s),
        forall|k: Seq<char>|
            #![trigger m.dom().contains(k)]
            m.dom().contains(k) <==> exists|i: int| 0 <= i < s.len() && s[i].0@ == k,
        forall|i: int| #![trigger s[i]] 0 <= i < s.len() ==> m[s[i].0@] == s[i].1@,
    ensures
        map_of(s) == m,
{
    lemma_map_of(s);
    assert forall|k: Seq<char>| #[trigger] m.dom().contains(k) implies map_of(s)[k] == m[k] by {
        let i = choose|i: int| 0 <= i < s.len() && s[i].0@ == k;
        assert(s[i].0@ == k);
    }
    assert(map_of(s) =~= m);
}

/// The saved connections as distinct-key pairs.
struct Connections {
    pairs: Vec<(String, ConnectionEntry)>,
}

impl Connections {
    #[verifier::type_invariant]
    spec fn distinct(self) -> bool {
        keys_distinct(self.pairs@)
    }

    closed spec fn view(self) -> Map<Seq<char>, EntryView> {
        map_of(self.pairs@)
    }

    fn new() -> (r: Connections)
        ensures
            r.view() == Map::<Seq<char>, EntryView>::empty(),
    {
        Connections { pairs: Vec::new() }
    }

    /// The position of `key`, if present.
    fn find(&self, key: &str) -> (r: Option<usize>)
        ensures
            match r {
                Some(i) => i < self.pairs@.len() && self.pairs@[i as int].0@ == key@,
                None => forall|i: int| 0 <= i < self.pairs@.len() ==> self.pairs@[i].0@ != key@,
            },
    {
        let mut i: usize = 0;
        while i < self.pairs.len()
            invariant
                i <= self.pairs@.len(),
                forall|j: int| 0 <= j < i ==> self.pairs@[j].0@ != key@,
            decreases self.pairs.len() - i,
        {
            if str_eq(self.pairs[i].0.as_str(), key) {
                return Some(i);
            }
            i = i + 1;
        }
        None
    }

    fn get(&self, key: &str) -> (r: Option<&ConnectionEntry>)
        ensures
            match r {
                Some(e) => self.view().dom().contains(key@) && self.view()[key@] == e@,
                None => !self.view().dom().contains(key@),
            },
    {
        proof {
            use_type_invariant(self);
            lemma_map_of(self.pairs@);
        }
        match self.find(key) {
            Some(i) => Some(&self.pairs[i].1),
            None => None,
        }
    }

    /// Inserts or replaces the entry under `key`.
    fn put(&mut self, key: String, e: ConnectionEntry)
        ensures
            final(self).view() == old(self).view().insert(key@, e@),
    {
        proof {
            use_type_invariant(&*self);
        }
        let found = self.find(key.as_str());
        let mut pairs: Vec<(String, ConnectionEntry)> = Vec::new();
        std::mem::swap(&mut pairs, &mut self.pairs);
        let ghost old_pairs = pairs@;
        let ghost k = key@;
        let ghost ev = e@;
        proof {
            lemma_map_of(old_pairs);
        }
        match found {
            Some(i) => {
                pairs.set(i, (key, e));
                proof {
                    assert(keys_distinct(pairs@));
                    let m = map_of(old_pairs).insert(k, ev);
                    assert forall|k2: Seq<char>| #[trigger] m.dom().contains(k2) <==> exists|j: int|
                        0 <= j < pairs@.len() && pairs@[j].0@ == k2 by {
                        if m.dom().contains(k2) {
                            if k2 == k {
                                assert(pairs@[i as int].0@ == k2);
                            } else {
                                let j = choose|j: int| 0 <= j < old_pairs.len() && old_pairs[j].0@ == k2;
                                assert(pairs@[j] == old_pairs[j]);
                            }
                        }
                        if exists|j: int| 0 <= j < pairs@.len() && pairs@[j].0@ == k2 {
                            let j = choose|j: int| 0 <= j < pairs@.len() && pairs@[j].0@ == k2;
                            if j != i {
                                assert(pairs@[j] == old_pairs[j]);
                            }
                        }
                    }
                    assert forall|j: int| 0 <= j < pairs@.len() implies #[trigger] m[pairs@[j].0@]
                        == pairs@[j].1@ by {
                        if j != i {
                            assert(pairs@[j] == old_pairs[j]);
                        }
                    }
                    lemma_map_of_ext(pairs@, m);
                }
            },
            None => {
                pairs.push((key, e));
                proof {
                    assert(pairs@.drop_last() == old_pairs);
                    assert(keys_distinct(pairs@));
                }
            },
        }
        self.pairs = pairs;
    }

    /// Removes `key`, if present.
    fn remove(&mut self, key: &str)
        ensures
            final(self).view() == old(self).view().remove(key@),
    {
        proof {
            use_type_invariant(&*self);
        }
        let found = self.find(key);
        let mut pairs: Vec<(String, ConnectionEntry)> = Vec::new();
        std::mem::swap(&mut pairs, &mut self.pairs);
        let ghost old_pairs = pairs@;
        proof {
            lemma_map_of(old_pairs);
        }
        match found {
            Some(i) => {
                pairs.remove(i);
                proof {
                    assert forall|a: int, b: int| 0 <= a < b < pairs@.len() implies pairs@[a].0@
                        != pairs@[b].0@ by {
                        let a0 = if a < i { a } else { a + 1 };
                        let b0 = if b < i { b } else { b + 1 };
                        assert(pairs@[a] == old_pairs[a0]);
                        assert(pairs@[b] == old_pairs[b0]);
                    }
                    let m = map_of(old_pairs).remove(key@);
                    assert forall|k: Seq<char>| #[trigger] m.dom().contains(k) <==> exists|j: int|
                        0 <= j < pairs@.len() && pairs@[j].0@ == k by {
                        if m.dom().contains(k) {
                            let j0 = choose|j: int| 0 <= j < old_pairs.len() && old_pairs[j].0@ == k;
                            let j = if j0 < i { j0 } else { j0 - 1 };
                            assert(pairs@[j] == old_pairs[j0]);
                        }
                        if exists|j: int| 0 <= j < pairs@.len() && pairs@[j].0@ == k {
                            let j = choose|j: int| 0 <= j < pairs@.len() && pairs@[j].0@ == k;
                            let j0 = if j < i { j } else { j + 1 };
                            assert(pairs@[j] == old_pairs[j0]);
                        }
                    }
                    assert forall|j: int| 0 <= j < pairs@.len() implies #[trigger] m[pairs@[j].0@]
                        == pairs@[j].1@ by {
                        let j0 = if j < i { j } else { j + 1 };
                        assert(pairs@[j] == old_pairs[j0]);
                    }
                    lemma_map_of_ext(pairs@, m);
                }
            },
            None => {
                proof {
                    assert(map_of(old_pairs).remove(key@) =~= map_of(old_pairs));
                }
            },
        }
        self.pairs = pairs;
    }
}

// ---------------------------------------------------------------------------
// The store
// ---------------------------------------------------------------------------

/// The saved connections, keyed by id, together with where they are kept on
/// disk and the cache and log directories the launches use.
pub struct ConnectionStore {
    con_cache: Connections,
    con_location: String,
    pub cache_dir: String,
    pub logs_dir: String,
}

impl View for ConnectionStore {
    type V = Map<Seq<char>, EntryView>;

    closed spec fn view(&self) -> Map<Seq<char>, EntryView> {
        self.con_cache.view()
    }
}

/// `None` for an optional value that is absent or blank after trimming,
/// the value itself otherwise.
pub open spec fn blank_to_none(o: Option<Seq<char>>) -> Option<Seq<char>> {
    match o {
        Some(v) => if trim(v).len() == 0 {
            None
        } else {
            Some(v)
        },
        None => None,
    }
}

/// `n` is entry `ce` as `save` stores it under `key`: the id is the key, a
/// blank username or password is dropped, a Java home that is not blank is
/// trimmed, and every other field is kept.
pub open spec fn saved_as(n: EntryView, ce: EntryView, key: Seq<char>) -> bool {
    &&& n.id == key
    &&& (trim(ce.java_home).len() > 0 ==> n.java_home == trim(ce.java_home))
    &&& n.username == blank_to_none(ce.username)
    &&& n.password == blank_to_none(ce.password)
    &&& n.address == ce.address
    &&& n.heap_size == ce.heap_size
    &&& n.java_args == ce.java_args
    &&& n.name == ce.name
    &&& n.group == ce.group
    &&& n.notes == ce.notes
    &&& n.donotcache == ce.donotcache
    &&& n.last_connected == ce.last_connected
    &&& n.show_console == ce.show_console
    &&& n.engine_type == ce.engine_type
    &&& n.pinned_cert_sha256 == ce.pinned_cert_sha256
    &&& n.icon_path == ce.icon_path
    &&& n.icon_glyph == ce.icon_glyph
    &&& n.icon_color == ce.icon_color
}

/// `e` with its Java home replaced by `jh`.
pub open spec fn with_java_home(e: EntryView, jh: Seq<char>) -> EntryView {
    EntryView { java_home: jh, ..e }
}

/// `e` with its last-connected time set to `t`.
pub open spec fn with_last_connected(e: EntryView, t: i64) -> EntryView {
    EntryView { last_connected: Some(t), ..e }
}

/// `e` with its pinned fingerprint replaced by `pin`.
pub open spec fn with_pin(e: EntryView, pin: Option<Seq<char>>) -> EntryView {
    EntryView { pinned_cert_sha256: pin, ..e }
}

/// The views of a sequence of entries.
pub open spec fn entry_views(s: Seq<ConnectionEntry>) -> Seq<EntryView> {
    s.map_values(|e: ConnectionEntry| e@)
}

/// The names of the entries of `data` whose id is already a key of `m`, in
/// the order of `data`.
pub open spec fn duplicate_names(m: Map<Seq<char>, EntryView>, data: Seq<EntryView>) -> Seq<
    Seq<char>,
>
    decreases data.len(),
{
    if data.len() == 0 {
        Seq::empty()
    } else {
        let rest = duplicate_names(m, data.drop_last());
        if m.dom().contains(data.last().id) {
            rest.push(data.last().name)
        } else {
            rest
        }
    }
}

/// `m` after inserting every entry of `data` in order under its own id, each
/// with Java home `jh`.
pub open spec fn insert_all(m: Map<Seq<char>, EntryView>, data: Seq<EntryView>, jh: Seq<char>) -> Map<
    Seq<char>,
    EntryView,
>
    decreases data.len(),
{
    if data.len() == 0 {
        m
    } else {
        insert_all(m, data.drop_last(), jh).insert(
            data.last().id,
            with_java_home(data.last(), jh),
        )
    }
}

/// What an import did.
pub enum ImportOutcome {
    /// Nothing was imported: these entries (by name) already exist and
    /// overwriting was not asked for. `total` counts the entries offered.
    Duplicates { names: Vec<String>, total: usize },
    /// All `total` entries were imported.
    Imported { total: usize },
}

/// The per-connection files that outlive a deleted connection, by name: its
/// isolated jar directory (under `<cache>/_isolated`), its launch log (under
/// the logs directory) and its composed icon (under `<data>/icons`).
pub struct DeleteCleanup {
    pub isolated_dir: String,
    pub log_file: String,
    pub icon_file: String,
}

/// Some entry of `m` has group `g`.
pub open spec fn some_group(m: Map<Seq<char>, EntryView>, g: Seq<char>) -> bool {
    exists|k: Seq<char>| m.dom().contains(k) && #[trigger] m[k].group == g
}

/// Some entry of `m` has engine type `t`.
pub open spec fn some_engine_type(m: Map<Seq<char>, EntryView>, t: Seq<char>) -> bool {
    exists|k: Seq<char>| m.dom().contains(k) && #[trigger] m[k].engine_type == t
}

/// Whether the views of `v` hold `x`.
fn contains_string(v: &Vec<String>, x: &str) -> (r: bool)
    ensures
        r == views(v@).contains(x@),
{
    let mut i: usize = 0;
    while i < v.len()
        invariant
            i <= v.len(),
            forall|j: int| 0 <= j < i ==> v@[j]@ != x@,
        decreases v.len() - i,
    {
        if str_eq(v[i].as_str(), x) {
            assert(views(v@)[i as int] == x@);
            return true;
        }
        i = i + 1;
    }
    assert forall|j: int| 0 <= j < views(v@).len() implies views(v@)[j] != x@ by {
        assert(views(v@)[j] == v@[j]@);
    }
    false
}

/// Drops an optional value that is blank after trimming.
fn blank_as_none(o: Option<String>) -> (r: Option<String>)
    ensures
        opt_view(r) == blank_to_none(opt_view(o)),
{
    match o {
        Some(v) => {
            let t = trimmed_chars(v.as_str());
            if t.len() == 0 {
                None
            } else {
                Some(v)
            }
        },
        None => None,
    }
}

impl ConnectionStore {
    /// The file the connections are persisted to.
    pub closed spec fn location(&self) -> Seq<char> {
        self.con_location@
    }

    /// The directory that holds the jar caches.
    pub closed spec fn cache_path(&self) -> Seq<char> {
        self.cache_dir@
    }

    /// The directory that holds the launch logs.
    pub closed spec fn logs_path(&self) -> Seq<char> {
        self.logs_dir@
    }

    /// A store holding the given `(key, entry)` pairs (a later pair for the
    /// same key wins), persisted at `con_location`, with the given cache and
    /// log directories.
    pub fn with_entries(
        con_location: String,
        cache_dir: String,
        logs_dir: String,
        data: Vec<(String, ConnectionEntry)>,
    ) -> (r: ConnectionStore)
        ensures
            r@ == map_of(data@),
            r.location() == con_location@,
            r.cache_path() == cache_dir@,
            r.logs_path() == logs_dir@,
    {
        let mut conns = Connections::new();
        let mut data = data;
        let ghost orig = data@;
        let mut i: usize = 0;
        let n = data.len();
        while data.len() > 0
            invariant
                i <= orig.len(),
                orig.len() == n,
                data@ == orig.skip(i as int),
                conns.view() == map_of(orig.take(i as int)),
            decreases data.len(),
        {
            let (k, e) = data.remove(0);
            proof {
                assert(orig.take(i + 1).drop_last() == orig.take(i as int));
                assert(orig[i as int] == (k, e));
            }
            conns.put(k, e);
            i = i + 1;
            proof {
                assert(data@ == orig.skip(i as int));
            }
        }
        assert(orig.take(i as int) == orig);
        ConnectionStore { con_cache: conns, con_location, cache_dir, logs_dir }
    }

    /// The file connections are persisted to, shown to the operator next to
    /// the (unencrypted) password field.
    pub fn store_path(&self) -> (r: &str)
        ensures
            r@ == self.location(),
    {
        self.con_location.as_str()
    }

    /// The entry saved under `id`.
    pub fn get(&self, id: &str) -> (r: Option<&ConnectionEntry>)
        ensures
            match r {
                Some(e) => self@.dom().contains(id@) && self@[id@] == e@,
                None => !self@.dom().contains(id@),
            },
    {
        self.con_cache.get(id)
    }

    /// The saved `(key, entry)` pairs, each key once.
    pub fn entries(&self) -> (r: &Vec<(String, ConnectionEntry)>)
        ensures
            keys_distinct(r@),
            map_of(r@) == self@,
    {
        proof {
            use_type_invariant(&self.con_cache);
        }
        &self.con_cache.pairs
    }

    /// Saves `ce` and returns the key it is saved under. An entry without an
    /// id gets a new random one; a blank Java home becomes the default one
    /// (see [`find_java_home`]) and any other is trimmed; a blank username or
    /// password is dropped.
    pub fn save(&mut self, ce: ConnectionEntry) -> (r: String)
        ensures
            ce@.id.len() > 0 ==> r@ == ce@.id,
            ce@.id.len() == 0 ==> uuid_v4_text(r@),
            final(self)@.dom().contains(r@),
            final(self)@ == old(self)@.insert(r@, final(self)@[r@]),
            saved_as(final(self)@[r@], ce@, r@),
            final(self).location() == old(self).location(),
            final(self).cache_path() == old(self).cache_path(),
            final(self).logs_path() == old(self).logs_path(),
    {
        let default_java_home = find_java_home();
        self.save_with_java_home(ce, default_java_home)
    }

    /// [`Self::save`] with the default Java home given: a blank Java home in
    /// `ce` is stored as `default_java_home`.
    pub fn save_with_java_home(&mut self, ce: ConnectionEntry, default_java_home: String) -> (r:
        String)
        ensures
            ce@.id.len() > 0 ==> r@ == ce@.id,
            ce@.id.len() == 0 ==> uuid_v4_text(r@),
            final(self)@.dom().contains(r@),
            final(self)@ == old(self)@.insert(r@, final(self)@[r@]),
            saved_as(final(self)@[r@], ce@, r@),
            trim(ce@.java_home).len() == 0 ==> final(self)@[r@].java_home == default_java_home@,
            final(self).location() == old(self).location(),
            final(self).cache_path() == old(self).cache_path(),
            final(self).logs_path() == old(self).logs_path(),
    {
        let mut ce = ce;
        if ce.id.as_str().is_empty() {
            ce.id = new_uuid();
        }
        let jh = trimmed(&chars_of(ce.java_home.as_str()));
        ce.java_home = if jh.as_str().is_empty() {
            default_java_home
        } else {
            jh
        };
        ce.username = blank_as_none(ce.username);
        ce.password = blank_as_none(ce.password);
        let key = ce.id.clone();
        let r = ce.id.clone();
        self.con_cache.put(key, ce);
        r
    }

    /// Removes the connection under `id` and names the per-connection files
    /// that nothing can reach once it is gone: its isolated jar directory
    /// (see [`isolated_folder`]; never empty, so never the whole
    /// `_isolated` directory), its launch log (named, as the launch names
    /// it, with the id sanitized as a path component) and its composed icon
    /// (the id sanitized for file names). The shared
    /// `<engine type>/<version>` cache is not among them.
    pub fn delete(&mut self, id: &str) -> (c: DeleteCleanup)
        ensures
            final(self)@ == old(self)@.remove(id@),
            c.isolated_dir@ == isolated_folder(id@),
            c.isolated_dir@.len() > 0,
            forall|i: int|
                0 <= i < c.isolated_dir@.len() ==> #[trigger] c.isolated_dir@[i] != '/'
                    && c.isolated_dir@[i] != '\\' && c.isolated_dir@[i] != '.',
            c.log_file@ == path_component(id@) + ".log"@,
            c.icon_file@ == sanitized_id(id@) + ".png"@,
            final(self).location() == old(self).location(),
            final(self).cache_path() == old(self).cache_path(),
            final(self).logs_path() == old(self).logs_path(),
    {
        self.con_cache.remove(id);
        let mut log_file = sanitize_for_path(id);
        push_str(&mut log_file, ".log");
        let mut icon_file = sanitize_id(id);
        push_str(&mut icon_file, ".png");
        DeleteCleanup { isolated_dir: isolated_folder_name(id), log_file, icon_file }
    }

    /// Stamps the entry under `id` with the launch time `now_millis`
    /// (milliseconds since the Unix epoch); nothing changes when there is no
    /// such entry.
    pub fn update_last_connected(&mut self, id: &str, now_millis: i64)
        ensures
            final(self)@ == (if old(self)@.dom().contains(id@) {
                old(self)@.insert(id@, with_last_connected(old(self)@[id@], now_millis))
            } else {
                old(self)@
            }),
            final(self).location() == old(self).location(),
            final(self).cache_path() == old(self).cache_path(),
            final(self).logs_path() == old(self).logs_path(),
    {
        let updated = match self.con_cache.get(id) {
            Some(entry) => {
                let mut u = entry.duplicate();
                u.last_connected = Some(now_millis);
                Some(u)
            },
            None => None,
        };
        if let Some(u) = updated {
            self.con_cache.put(owned(id), u);
        }
    }

    /// Sets (or clears) the pinned certificate fingerprint of the entry
    /// under `id`; nothing changes when there is no such entry.
    pub fn update_pin(&mut self, id: &str, sha256: Option<String>)
        ensures
            final(self)@ == (if old(self)@.dom().contains(id@) {
                old(self)@.insert(id@, with_pin(old(self)@[id@], opt_view(sha256)))
            } else {
                old(self)@
            }),
            final(self).location() == old(self).location(),
            final(self).cache_path() == old(self).cache_path(),
            final(self).logs_path() == old(self).logs_path(),
    {
        let updated = match self.con_cache.get(id) {
            Some(entry) => {
                let mut u = entry.duplicate();
                u.pinned_cert_sha256 = sha256;
                Some(u)
            },
            None => None,
        };
        if let Some(u) = updated {
            self.con_cache.put(owned(id), u);
        }
    }

    /// Imports `data`. When some entries' ids are already saved and
    /// `overwrite` is false, nothing changes and their names are reported;
    /// otherwise every entry is saved under its own id, in order, each with
    /// the default Java home (see [`find_java_home`]).
    pub fn import(&mut self, data: Vec<ConnectionEntry>, overwrite: bool) -> (r: ImportOutcome)
        ensures
            ({
                let dups = duplicate_names(old(self)@, entry_views(data@));
                if dups.len() > 0 && !overwrite {
                    &&& r matches ImportOutcome::Duplicates { names, total } && views(names@)
                        == dups && total == data@.len()
                    &&& final(self)@ == old(self)@
                } else {
                    &&& r matches ImportOutcome::Imported { total } && total == data@.len()
                    &&& exists|jh: Seq<char>|
                        final(self)@ == insert_all(old(self)@, entry_views(data@), jh)
                }
            }),
            final(self).location() == old(self).location(),
            final(self).cache_path() == old(self).cache_path(),
            final(self).logs_path() == old(self).logs_path(),
    {
        let java_home = find_java_home();
        self.import_with_java_home(data, overwrite, java_home)
    }

    /// [`Self::import`] with the Java home given: every imported entry gets
    /// `java_home`.
    pub fn import_with_java_home(&mut self, data: Vec<ConnectionEntry>, overwrite: bool, java_home: String) -> (r:
        ImportOutcome)
        ensures
            ({
                let dups = duplicate_names(old(self)@, entry_views(data@));
                if dups.len() > 0 && !overwrite {
                    &&& r matches ImportOutcome::Duplicates { names, total } && views(names@)
                        == dups && total == data@.len()
                    &&& final(self)@ == old(self)@
                } else {
                    &&& r matches ImportOutcome::Imported { total } && total == data@.len()
                    &&& final(self)@ == insert_all(old(self)@, entry_views(data@), java_home@)
                }
            }),
            final(self).location() == old(self).location(),
            final(self).cache_path() == old(self).cache_path(),
            final(self).logs_path() == old(self).logs_path(),
    {
        let ghost m0 = self@;
        let ghost dv = entry_views(data@);
        let mut names: Vec<String> = Vec::new();
        let mut i: usize = 0;
        while i < data.len()
            invariant
                i <= data@.len(),
                self@ == m0,
                dv == entry_views(data@),
                views(names@) == duplicate_names(m0, dv.take(i as int)),
            decreases data.len() - i,
        {
            proof {
                assert(dv.take(i + 1).drop_last() == dv.take(i as int));
            }
            if self.con_cache.get(data[i].id.as_str()).is_some() {
                let nm = data[i].name.clone();
                names.push(nm);
                proof {
                    assert(views(names@) == views(names@.drop_last()).push(nm@));
                }
            }
            i = i + 1;
        }
        proof {
            assert(dv.take(data@.len() as int) == dv);
        }
        let total = data.len();
        if names.len() > 0 && !overwrite {
            return ImportOutcome::Duplicates { names, total };
        }
        let mut data = data;
        let ghost orig = data@;
        let mut k: usize = 0;
        while data.len() > 0
            invariant
                k <= orig.len(),
                orig.len() == total,
                dv == entry_views(orig),
                data@ == orig.skip(k as int),
                self@ == insert_all(m0, dv.take(k as int), java_home@),
                self.location() == old(self).location(),
                self.cache_path() == old(self).cache_path(),
                self.logs_path() == old(self).logs_path(),
            decreases data.len(),
        {
            let mut ce = data.remove(0);
            proof {
                assert(orig[k as int] == ce);
                assert(dv.take(k + 1).drop_last() == dv.take(k as int));
                assert(dv.take(k + 1).last() == ce@);
            }
            ce.java_home = java_home.clone();
            let key = ce.id.clone();
            self.con_cache.put(key, ce);
            k = k + 1;
            proof {
                assert(data@ == orig.skip(k as int));
            }
        }
        proof {
            assert(dv.take(k as int) == dv);
        }
        ImportOutcome::Imported { total }
    }

    /// Every group in use, with the default group always among them; each
    /// group once.
    pub fn get_all_groups(&self) -> (r: Vec<String>)
        ensures
            views(r@).no_duplicates(),
            forall|g: Seq<char>|
                #![trigger views(r@).contains(g)]
                views(r@).contains(g) <==> (g == "Default"@ || some_group(self@, g)),
    {
        proof {
            use_type_invariant(&self.con_cache);
        }
        let d = get_default_group();
        let out = self.distinct_fields(d, true);
        proof {
            lemma_map_of(self.con_cache.pairs@);
            let pairs = self.con_cache.pairs@;
            assert forall|g: Seq<char>| #![trigger views(out@).contains(g)] views(out@).contains(g)
                <==> (g == "Default"@ || some_group(self@, g)) by {
                if some_group(self@, g) {
                    let k = choose|k: Seq<char>| self@.dom().contains(k) && #[trigger] self@[k].group == g;
                    let j = choose|j: int| 0 <= j < pairs.len() && pairs[j].0@ == k;
                    assert(field_of(pairs[j].1@, true) == g);
                }
                if exists|j: int| 0 <= j < pairs.len() && #[trigger] field_of(pairs[j].1@, true) == g {
                    let j = choose|j: int| 0 <= j < pairs.len() && #[trigger] field_of(pairs[j].1@, true) == g;
                    assert(self@[pairs[j].0@].group == g);
                }
            }
        }
        out
    }

    /// Every engine type in use, with the default engine type always among
    /// them; each once.
    pub fn get_all_engine_types(&self) -> (r: Vec<String>)
        ensures
            views(r@).no_duplicates(),
            forall|t: Seq<char>|
                #![trigger views(r@).contains(t)]
                views(r@).contains(t) <==> (t == "Open Integration Engine"@ || some_engine_type(
                    self@,
                    t,
                )),
    {
        proof {
            use_type_invariant(&self.con_cache);
        }
        let d = get_default_engine_type();
        let out = self.distinct_fields(d, false);
        proof {
            lemma_map_of(self.con_cache.pairs@);
            let pairs = self.con_cache.pairs@;
            assert forall|t: Seq<char>| #![trigger views(out@).contains(t)] views(out@).contains(t)
                <==> (t == "Open Integration Engine"@ || some_engine_type(self@, t)) by {
                if some_engine_type(self@, t) {
                    let k = choose|k: Seq<char>| self@.dom().contains(k) && #[trigger] self@[k].engine_type == t;
                    let j = choose|j: int| 0 <= j < pairs.len() && pairs[j].0@ == k;
                    assert(field_of(pairs[j].1@, false) == t);
                }
                if exists|j: int| 0 <= j < pairs.len() && #[trigger] field_of(pairs[j].1@, false) == t {
                    let j = choose|j: int| 0 <= j < pairs.len() && #[trigger] field_of(pairs[j].1@, false) == t;
                    assert(self@[pairs[j].0@].engine_type == t);
                }
            }
        }
        out
    }

    /// `first`, then the group (or engine type) of each saved entry, each
    /// value once.
    fn distinct_fields(&self, first: String, group: bool) -> (out: Vec<String>)
        ensures
            views(out@).no_duplicates(),
            forall|g: Seq<char>|
                #![trigger views(out@).contains(g)]
                views(out@).contains(g) <==> (g == first@ || exists|j: int|
                    0 <= j < self.con_cache.pairs@.len() && #[trigger] field_of(
                        self.con_cache.pairs@[j].1@,
                        group,
                    ) == g),
    {
        let pairs = &self.con_cache.pairs;
        let mut out: Vec<String> = Vec::new();
        let ghost f = first@;
        out.push(first);
        proof {
            assert(views(out@) == seq![f]);
            assert forall|g: Seq<char>| #[trigger] views(out@).contains(g) <==> g == f by {
                if g == f {
                    assert(views(out@)[0] == g);
                }
            }
        }
        let mut i: usize = 0;
        while i < pairs.len()
            invariant
                i <= pairs@.len(),
                pairs@ == self.con_cache.pairs@,
                views(out@).no_duplicates(),
                forall|g: Seq<char>|
                    #![trigger views(out@).contains(g)]
                    views(out@).contains(g) <==> (g == f || exists|j: int|
                        0 <= j < i && #[trigger] field_of(pairs@[j].1@, group) == g),
            decreases pairs.len() - i,
        {
            let g = if group {
                &pairs[i].1.group
            } else {
                &pairs[i].1.engine_type
            };
            let ghost before = views(out@);
            let ghost gv = g@;
            assert(gv == field_of(pairs@[i as int].1@, group));
            if !contains_string(&out, g.as_str()) {
                let c = g.clone();
                out.push(c);
                proof {
                    assert(views(out@) == before.push(gv));
                    lemma_push_contains(before, gv);
                }
            }
            proof {
                assert forall|x: Seq<char>| #[trigger] views(out@).contains(x) <==> (x == f
                    || exists|j: int| 0 <= j < i + 1 && #[trigger] field_of(pairs@[j].1@, group) == x) by {
                    if views(out@).contains(x) && !before.contains(x) {
                        assert(field_of(pairs@[i as int].1@, group) == x);
                    }
                    if before.contains(x) {
                        if x != f {
                            let j = choose|j: int| 0 <= j < i && #[trigger] field_of(pairs@[j].1@, group) == x;
                            assert(0 <= j < i + 1 && field_of(pairs@[j].1@, group) == x);
                        }
                    }
                }
            }
            i = i + 1;
        }
        out
    }
}

/// The group (when `group`) or the engine type of `e`.
pub open spec fn field_of(e: EntryView, group: bool) -> Seq<char> {
    if group {
        e.group
    } else {
        e.engine_type
    }
}

/// Pushing onto a sequence adds exactly the pushed value to what it contains.
proof fn lemma_push_contains(s: Seq<Seq<char>>, a: Seq<char>)
    ensures
        forall|x: Seq<char>| #[trigger] s.push(a).contains(x) <==> (s.contains(x) || x == a),
        s.no_duplicates() && !s.contains(a) ==> s.push(a).no_duplicates(),
{
    assert forall|x: Seq<char>| #[trigger] s.push(a).contains(x) <==> (s.contains(x) || x == a) by {
        if s.contains(x) {
            let i = choose|i: int| 0 <= i < s.len() && s[i] == x;
            assert(s.push(a)[i] == x);
        }
        if x == a {
            assert(s.push(a)[s.len() as int] == x);
        }
        if s.push(a).contains(x) {
            let i = choose|i: int| 0 <= i < s.push(a).len() && s.push(a)[i] == x;
            if i < s.len() {
                assert(s[i] == x);
            }
        }
    }
    if s.no_duplicates() && !s.contains(a) {
        assert forall|i: int, j: int| 0 <= i < s.push(a).len() && 0 <= j < s.push(a).len() && i != j
            implies s.push(a)[i] != s.push(a)[j] by {
            if i == s.len() {
                assert(s[j] == s.push(a)[j]);
            } else if j == s.len() {
                assert(s[i] == s.push(a)[i]);
            }
        }
    }
}

} // verus!
