//! The settings of `~/.config/quitall/config.toml` and the edits that the menu
//! makes to that file's text.
use vstd::prelude::*;

use crate::apps::{app_matches, App};
use crate::text::lemma_eq_ignore_ascii_case_refl;

verus! {

/// The settings read from the config file.
pub struct Config {
    /// Apps never quit unless named explicitly with `--only`. Names or bundle identifiers.
    pub keep: Vec<String>,
    /// Seconds to wait for graceful quits before giving up (or force-quitting with `force_after`).
    pub timeout: Option<u64>,
    /// If set, force-quit anything still running after `timeout` seconds.
    pub force_after: Option<u64>,
    /// Also quit menu-bar / accessory apps by default.
    pub include_accessory: bool,
}

impl Default for Config {
    /// The settings in force without a config file: nothing kept, no timeouts
    /// of its own, menu-bar apps left alone.
    fn default() -> (r: Self)
        ensures
            r.keep@.len() == 0,
            r.timeout is None,
            r.force_after is None,
            !r.include_accessory,
    {
        Config { keep: Vec::new(), timeout: None, force_after: None, include_accessory: false }
    }
}

/// The key under which an app is remembered in `keep`.
pub open spec fn spec_keep_key(app: App) -> Seq<char> {
    match app.bundle_id {
        Some(b) => b@,
        None => app.name@,
    }
}

/// Key used to remember an app in `keep`: bundle id when it has one, else its name.
pub fn keep_key(app: &App) -> (r: String)
    ensures
        r@ == spec_keep_key(*app),
{
    match &app.bundle_id {
        Some(b) => b.clone(),
        None => app.name.clone(),
    }
}

/// An app's keep key names that app.
pub proof fn lemma_keep_key_names_app(app: App)
    ensures
        app_matches(app, spec_keep_key(app)),
{
    lemma_eq_ignore_ascii_case_refl(spec_keep_key(app));
}

/// A value written to one top-level key of the config file.
pub enum ConfigValue {
    /// A boolean, such as `include_accessory`.
    Flag(bool),
    /// An array of strings, such as `keep`.
    List(Vec<String>),
}

/// The value that stores `keep` as an array of strings.
pub fn keep_array(keep: &[String]) -> (r: ConfigValue)
    ensures
        r matches ConfigValue::List(v) && v@ == keep@,
{
    let mut v: Vec<String> = Vec::new();
    let mut i: usize = 0;
    while i < keep.len()
        invariant
            i <= keep@.len(),
            v@ == keep@.take(i as int),
        decreases keep@.len() - i,
    {
        v.push(keep[i].clone());
        assert(keep@.take(i + 1) =~= keep@.take(i as int).push(keep@[i as int]));
        i = i + 1;
    }
    assert(keep@.take(keep@.len() as int) =~= keep@);
    ConfigValue::List(v)
}

// ---------------------------------------------------------------------------
// Editing the config file's text with toml_edit
// ---------------------------------------------------------------------------

#[verifier::external_type_specification]
#[verifier::external_body]
pub struct ExDocumentMut(toml_edit::DocumentMut);

#[verifier::external_type_specification]
#[verifier::external_body]
pub struct ExTomlError(toml_edit::TomlError);

/// One top-level value of a document: the prefix of its decor (the spacing
/// after `=`) if it is set and written out, the value's text without decor as
/// toml_edit writes it, and the suffix of its decor (the rest of its line,
/// trailing comment included) if it is set and written out.
pub type ValueEntry = (Option<Seq<char>>, Seq<char>, Option<Seq<char>>);

/// What a toml_edit document holds at its top level: each key whose item is
/// a value, with that value's decor and text.
pub uninterp spec fn doc_entries(d: toml_edit::DocumentMut) -> Map<Seq<char>, ValueEntry>;

/// The text toml_edit writes for a document.
pub uninterp spec fn doc_text(d: toml_edit::DocumentMut) -> Seq<char>;

/// The text toml_edit writes for a document with its top-level entry under
/// `key` (the key and its item) left out: everything of the document apart
/// from that entry.
pub uninterp spec fn doc_rest(d: toml_edit::DocumentMut, key: Seq<char>) -> Seq<char>;

/// The document's trivia (spacing, comments, line ends) is of the kind TOML
/// allows in each place, as toml_edit's parser leaves it; so toml_edit writes
/// it as TOML that reads back to the same top-level values.
pub uninterp spec fn doc_intact(d: toml_edit::DocumentMut) -> bool;

/// Whether toml_edit accepts `text` as a TOML document.
pub uninterp spec fn toml_accepts(text: Seq<char>) -> bool;

/// The top-level values of the document toml_edit parses from `text`.
pub uninterp spec fn text_entries(text: Seq<char>) -> Map<Seq<char>, ValueEntry>;

/// `doc_rest` of the document toml_edit parses from `text`.
pub uninterp spec fn text_rest(text: Seq<char>, key: Seq<char>) -> Seq<char>;

/// The text toml_edit gives a fresh array of the strings `items`.
pub uninterp spec fn toml_string_array(items: Seq<Seq<char>>) -> Seq<char>;

/// A document without top-level values.
pub open spec fn no_entries() -> Map<Seq<char>, ValueEntry> {
    Map::empty()
}

/// The texts of the values, keyed as the entries are.
pub open spec fn values_of(m: Map<Seq<char>, ValueEntry>) -> Map<Seq<char>, Seq<char>> {
    m.map_values(|e: ValueEntry| e.1)
}

/// TOML whitespace: spaces and tabs, what may stand between `=` and a value.
pub open spec fn is_toml_ws(s: Seq<char>) -> bool {
    forall|i: int| 0 <= i < s.len() ==> s[i] == ' ' || s[i] == '\t'
}

/// A character that may stand in a TOML comment: tab, printable ASCII, or
/// any non-ASCII character.
pub open spec fn is_comment_char(c: char) -> bool {
    c == '\t' || (' ' <= c && c <= '~') || c >= '\u{80}'
}

/// What TOML allows after a value on its line: whitespace, then optionally a
/// comment.
pub open spec fn is_line_trailing(s: Seq<char>) -> bool {
    exists|k: int|
        0 <= k <= s.len() && is_toml_ws(#[trigger] s.subrange(0, k)) && (k == s.len() || (s[k]
            == '#' && forall|i: int| k < i < s.len() ==> is_comment_char(s[i])))
}

/// The characters of an optional string.
pub open spec fn opt_chars(o: Option<String>) -> Option<Seq<char>> {
    match o {
        Some(s) => Some(s@),
        None => None,
    }
}

/// The entry a fresh value holds: no decor, and its text; an empty array is
/// written `[]`.
pub open spec fn fresh_entry(value: ConfigValue) -> ValueEntry {
    match value {
        ConfigValue::Flag(b) => (None, if b {
            "true"@
        } else {
            "false"@
        }, None),
        ConfigValue::List(v) => (None, if v@.len() == 0 {
            "[]"@
        } else {
            toml_string_array(v@.map_values(|s: String| s@))
        }, None),
    }
}

/// `old` with `key` set to the value of `new`; a value already under `key`
/// passes its decor (spacing and trailing comment) on to the new one.
pub open spec fn rewritten(
    old: Map<Seq<char>, ValueEntry>,
    key: Seq<char>,
    new: ValueEntry,
) -> Map<Seq<char>, ValueEntry> {
    if old.contains_key(key) {
        old.insert(key, (old[key].0, new.1, old[key].2))
    } else {
        old.insert(key, new)
    }
}

/// `<toml_edit::DocumentMut as FromStr>::from_str`: parses `text`, keeping
/// its layout and comments. Claimed: it succeeds exactly on the texts that
/// `toml_accepts` names; the document holds the top-level values that
/// `text_entries` names and the rest that `text_rest` names; its trivia is as
/// the parser leaves it; the empty text is the empty document.
#[verifier::external_body]
fn parse_document(text: &str) -> (r: Result<toml_edit::DocumentMut, toml_edit::TomlError>)
    ensures
        r is Ok <==> toml_accepts(text@),
        r matches Ok(d) ==> doc_entries(d) == text_entries(text@),
        r matches Ok(d) ==> forall|k: Seq<char>| #[trigger] doc_rest(d, k) == text_rest(text@, k),
        r matches Ok(d) ==> doc_intact(d),
        text@.len() == 0 ==> r is Ok,
        r matches Ok(d) ==> (text@.len() == 0 ==> doc_entries(d) == no_entries()),
{
    text.parse::<toml_edit::DocumentMut>()
}

/// `<toml_edit::TomlError as Display>::to_string`: the parser's message.
/// Nothing is claimed of its text.
#[verifier::external_body]
fn error_text(e: &toml_edit::TomlError) -> String {
    e.to_string()
}

/// `toml_edit::Table::get` with `Item::as_value`, `Value::decor`,
/// `Decor::prefix`/`suffix` and `RawString::as_str`: the decor of the value
/// under `key`, if a value is stored there. Each part is the written-out text
/// when set. In a document whose trivia is as the parser leaves it, the
/// prefix is whitespace and the suffix is what TOML allows after a value.
#[verifier::external_body]
fn value_decor(doc: &toml_edit::DocumentMut, key: &str) -> (r: Option<(Option<String>, Option<String>)>)
    ensures
        r is Some <==> doc_entries(*doc).contains_key(key@),
        r matches Some(parts) ==> opt_chars(parts.0) == doc_entries(*doc)[key@].0,
        r matches Some(parts) ==> opt_chars(parts.1) == doc_entries(*doc)[key@].2,
        r matches Some(parts) ==> (doc_intact(*doc) ==> (parts.0 matches Some(p) ==> is_toml_ws(p@))),
        r matches Some(parts) ==> (doc_intact(*doc) ==> (parts.1 matches Some(s) ==> is_line_trailing(
            s@,
        ))),
{
    doc.get(key).and_then(toml_edit::Item::as_value).map(|v| {
        (
            v.decor().prefix().and_then(toml_edit::RawString::as_str).map(str::to_owned),
            v.decor().suffix().and_then(toml_edit::RawString::as_str).map(str::to_owned),
        )
    })
}

/// `<toml_edit::DocumentMut as IndexMut<&str>>::index_mut`, assigned the
/// `toml_edit::value` of `value` (a boolean, or `toml_edit::Array::from_iter`
/// of the strings): `key` now holds that fresh value, without decor; every
/// other top-level value, and everything apart from `key`'s entry, is
/// unchanged; trivia stays as the parser left it.
#[verifier::external_body]
fn put_value(doc: &mut toml_edit::DocumentMut, key: &str, value: &ConfigValue)
    ensures
        doc_entries(*final(doc)) == doc_entries(*old(doc)).insert(key@, fresh_entry(*value)),
        *value matches ConfigValue::List(v) ==> (v@.len() > 0 ==> doc_entries(*final(doc))[key@].1
            == toml_string_array(v@.map_values(|s: String| s@))),
        doc_rest(*final(doc), key@) == doc_rest(*old(doc), key@),
        doc_intact(*old(doc)) ==> doc_intact(*final(doc)),
{
    doc[key] = match value {
        ConfigValue::Flag(b) => toml_edit::value(*b),
        ConfigValue::List(items) => toml_edit::value(
            toml_edit::Array::from_iter(items.iter().map(String::as_str)),
        ),
    };
}

/// `toml_edit::Table::get_mut` with `Item::as_value_mut`,
/// `Value::decor_mut` and `Decor::set_prefix`: the value under `key` gets the
/// decor prefix `prefix`; nothing else changes. Whitespace keeps the trivia
/// as TOML allows it.
#[verifier::external_body]
fn set_value_prefix(doc: &mut toml_edit::DocumentMut, key: &str, prefix: &str)
    requires
        doc_entries(*old(doc)).contains_key(key@),
    ensures
        doc_entries(*final(doc)) == doc_entries(*old(doc)).insert(
            key@,
            (Some(prefix@), doc_entries(*old(doc))[key@].1, doc_entries(*old(doc))[key@].2),
        ),
        doc_rest(*final(doc), key@) == doc_rest(*old(doc), key@),
        doc_intact(*old(doc)) && is_toml_ws(prefix@) ==> doc_intact(*final(doc)),
{
    if let Some(v) = doc.get_mut(key).and_then(toml_edit::Item::as_value_mut) {
        v.decor_mut().set_prefix(prefix);
    }
}

/// `toml_edit::Table::get_mut` with `Item::as_value_mut`,
/// `Value::decor_mut` and `Decor::set_suffix`: the value under `key` gets the
/// decor suffix `suffix`; nothing else changes. Whitespace and a comment keep
/// the trivia as TOML allows it.
#[verifier::external_body]
fn set_value_suffix(doc: &mut toml_edit::DocumentMut, key: &str, suffix: &str)
    requires
        doc_entries(*old(doc)).contains_key(key@),
    ensures
        doc_entries(*final(doc)) == doc_entries(*old(doc)).insert(
            key@,
            (doc_entries(*old(doc))[key@].0, doc_entries(*old(doc))[key@].1, Some(suffix@)),
        ),
        doc_rest(*final(doc), key@) == doc_rest(*old(doc), key@),
        doc_intact(*old(doc)) && is_line_trailing(suffix@) ==> doc_intact(*final(doc)),
{
    if let Some(v) = doc.get_mut(key).and_then(toml_edit::Item::as_value_mut) {
        v.decor_mut().set_suffix(suffix);
    }
}

/// `<toml_edit::DocumentMut as Display>::to_string`: the document's text, as
/// `doc_text` names it. For a document whose trivia is as TOML allows it
/// (toml_edit's documented preservation of comments, spaces and order), the
/// text is TOML and parses back to the same keys with the same value texts.
/// That it parses back to the same decor and rest is not claimed: toml_edit
/// drops carriage returns and writes defaults for unset decor.
#[verifier::external_body]
fn render(doc: &toml_edit::DocumentMut) -> (r: String)
    ensures
        r@ == doc_text(*doc),
        doc_intact(*doc) ==> toml_accepts(r@),
        doc_intact(*doc) ==> values_of(text_entries(r@)) == values_of(doc_entries(*doc)),
{
    doc.to_string()
}

/// The config file text `text` with the top-level `key` rewritten to
/// `value`, everything else (including comments) preserved; the value takes
/// over the spacing and trailing comment of the one it replaces. Fails, with
/// the parser's message, when `text` is not TOML. The new text is what
/// toml_edit writes for a document whose top-level values are those of
/// `text` with `key` set to `value`, and whose rest is that of `text`; it is
/// TOML, and reading it gives those values back.
pub fn set_in_text(text: &str, key: &str, value: &ConfigValue) -> (r: Result<String, String>)
    ensures
        r is Ok <==> toml_accepts(text@),
        r matches Ok(t) ==> exists|d: toml_edit::DocumentMut|
            #[trigger] doc_text(d) == t@ && doc_entries(d) == rewritten(
                text_entries(text@),
                key@,
                fresh_entry(*value),
            ) && doc_rest(d, key@) == text_rest(text@, key@),
        r matches Ok(t) ==> toml_accepts(t@),
        r matches Ok(t) ==> values_of(text_entries(t@)) == values_of(
            rewritten(text_entries(text@), key@, fresh_entry(*value)),
        ),
{
    let mut doc = match parse_document(text) {
        Ok(d) => d,
        Err(e) => return Err(error_text(&e)),
    };
    let ghost old_doc = doc;
    let old_decor = value_decor(&doc, key);
    put_value(&mut doc, key, value);
    // Carry over spacing and any trailing comment from the value replaced.
    match old_decor {
        Some((prefix, suffix)) => {
            match prefix {
                Some(p) => set_value_prefix(&mut doc, key, p.as_str()),
                None => {},
            }
            match suffix {
                Some(s) => set_value_suffix(&mut doc, key, s.as_str()),
                None => {},
            }
        },
        None => {},
    }
    let t = render(&doc);
    proof {
        let old = text_entries(text@);
        let new = fresh_entry(*value);
        assert(doc_entries(doc) =~= rewritten(old, key@, new));
    }
    Ok(t)
}

/// What a rewrite reads back as: the key holds the new value's text, and
/// every other key holds what it held.
pub proof fn lemma_rewrite_reads_back(
    old: Map<Seq<char>, ValueEntry>,
    key: Seq<char>,
    new: ValueEntry,
    read: Map<Seq<char>, ValueEntry>,
)
    requires
        values_of(read) == values_of(rewritten(old, key, new)),
    ensures
        read.contains_key(key),
        read[key].1 == new.1,
        forall|k: Seq<char>| k != key ==> (#[trigger] read.contains_key(k) <==> old.contains_key(k)),
        forall|k: Seq<char>| k != key && old.contains_key(k) ==> #[trigger] read[k].1 == old[k].1,
{
    assert(values_of(read).contains_key(key));
    assert(values_of(read)[key] == read[key].1);
    assert forall|k: Seq<char>| k != key implies (#[trigger] read.contains_key(k) <==> old.contains_key(k)) by {
        assert(values_of(read).contains_key(k) == read.contains_key(k));
        assert(values_of(rewritten(old, key, new)).contains_key(k) == old.contains_key(k));
    }
    assert forall|k: Seq<char>| k != key && old.contains_key(k) implies #[trigger] read[k].1 == old[k].1 by {
        assert(values_of(read)[k] == read[k].1);
        assert(values_of(rewritten(old, key, new))[k] == old[k].1);
    }
}

/// Writing the same key and value again, to the text read back, reads back
/// to the same values.
pub proof fn lemma_rewrite_twice_same_values(
    old: Map<Seq<char>, ValueEntry>,
    key: Seq<char>,
    new: ValueEntry,
    once: Map<Seq<char>, ValueEntry>,
    twice: Map<Seq<char>, ValueEntry>,
)
    requires
        values_of(once) == values_of(rewritten(old, key, new)),
        values_of(twice) == values_of(rewritten(once, key, new)),
    ensures
        values_of(twice) == values_of(once),
{
    lemma_rewrite_reads_back(old, key, new, once);
    assert(values_of(rewritten(once, key, new)) =~= values_of(once));
}

/// Rewriting a key touches no other top-level value.
pub proof fn lemma_rewrite_keeps_other_values(
    old: Map<Seq<char>, ValueEntry>,
    key: Seq<char>,
    new: ValueEntry,
    other: Seq<char>,
)
    requires
        other != key,
    ensures
        rewritten(old, key, new).contains_key(other) == old.contains_key(other),
        old.contains_key(other) ==> rewritten(old, key, new)[other] == old[other],
        rewritten(old, key, new).contains_key(key),
        rewritten(old, key, new)[key].1 == new.1,
{
}

/// Rewriting a key with the value it already holds, decor apart, changes
/// nothing.
pub proof fn lemma_rewrite_same_value(old: Map<Seq<char>, ValueEntry>, key: Seq<char>, new: ValueEntry)
    requires
        old.contains_key(key),
        old[key].1 == new.1,
    ensures
        rewritten(old, key, new) == old,
{
    assert(rewritten(old, key, new) =~= old);
}

} // verus!
