//! The registry of installed features inside the project manifest.
//!
//! The manifest is a TOML document. Its table `kraken` holds the language
//! and the framework of the project, written once. Its table `features`
//! holds one entry for each installed feature, written as `<name> = true`.
//! A feature counts as installed only where the table holds its name with
//! the value `true`; any other value is read as not installed, and marking
//! sets it to `true`. The document is read and rewritten by `toml_edit`; a
//! rewrite is taken only where reading it back shows the feature and the
//! language and framework as they were.
use crate::error::ScaffoldError;
use crate::text::{same_text, text_of, view_of};
use toml_edit::{Document, Item, TomlError};
use vstd::prelude::*;
use vstd::string::*;

verus! {

/// The table of the manifest that holds the installed features.
pub const FEATURES: &'static str = "features";

/// The table of the manifest that holds the settings of the project.
pub const SETTINGS: &'static str = "kraken";

/// The setting that holds the language of the project.
pub const LANGUAGE_KEY: &'static str = "language";

/// The setting that holds the framework of the project.
pub const FRAMEWORK_KEY: &'static str = "framework";

/// A TOML document as `toml_edit` holds it.
#[verifier::external_type_specification]
#[verifier::external_body]
pub struct ExDocument(Document);

/// An item of a TOML document: a value, a table, an array of tables, or
/// nothing.
#[verifier::external_type_specification]
#[verifier::external_body]
pub struct ExItem(Item);

/// The error with which `toml_edit` refuses a text.
#[verifier::external_type_specification]
#[verifier::external_body]
pub struct ExTomlError(TomlError);

/// The document that `text` parses to, or nothing where it is not TOML.
pub uninterp spec fn parsed_manifest(text: Seq<char>) -> Option<Document>;

/// The root item of the document.
pub uninterp spec fn root(doc: Document) -> Item;

/// The item that `item` holds under `key`: there is one only where `item`
/// is a table or an inline table with that key.
pub uninterp spec fn entry(item: Item, key: Seq<char>) -> Option<Item>;

/// `item` is a table or an inline table.
pub uninterp spec fn table_like(item: Item) -> bool;

/// The boolean that `item` is, where it is a boolean value.
pub uninterp spec fn truth(item: Item) -> Option<bool>;

/// The string that `item` is, where it is a string value.
pub uninterp spec fn string(item: Item) -> Option<Seq<char>>;

/// The document after `section.key` was set to the boolean `value`, where
/// `section` was missing before or a table or an inline table.
pub uninterp spec fn with_entry(
    doc: Document,
    section: Seq<char>,
    key: Seq<char>,
    value: bool,
) -> Document;

/// The text that the document is written as.
pub uninterp spec fn rendered(doc: Document) -> Seq<char>;

/// The document lists the feature `name`: its root holds `features`, and
/// that holds `name` with the value `true`.
pub open spec fn lists(doc: Document, name: Seq<char>) -> bool {
    match entry(root(doc), FEATURES@) {
        Some(features) => match entry(features, name) {
            Some(value) => truth(value) == Some(true),
            None => false,
        },
        None => false,
    }
}

/// The setting `key` of the document: the string that its table `kraken`
/// holds under `key`, where there is one.
pub open spec fn setting(doc: Document, key: Seq<char>) -> Option<Seq<char>> {
    match entry(root(doc), SETTINGS@) {
        Some(settings) => match entry(settings, key) {
            Some(value) => string(value),
            None => None,
        },
        None => None,
    }
}

/// The language and the framework read the same in both documents.
pub open spec fn keeps_settings(before: Document, after: Document) -> bool {
    &&& setting(after, LANGUAGE_KEY@) == setting(before, LANGUAGE_KEY@)
    &&& setting(after, FRAMEWORK_KEY@) == setting(before, FRAMEWORK_KEY@)
}

/// The setting `key` of the manifest `text`; nothing where the text is not
/// a TOML document.
pub open spec fn setting_of(text: Seq<char>, key: Seq<char>) -> Option<Seq<char>> {
    match parsed_manifest(text) {
        Some(doc) => setting(doc, key),
        None => None,
    }
}

/// The `features` of the document can take a key: they are missing, a table
/// or an inline table.
pub open spec fn takes_features(doc: Document) -> bool {
    match entry(root(doc), FEATURES@) {
        Some(features) => table_like(features),
        None => true,
    }
}

/// Whether the manifest `text` lists the feature `name`; nothing where the
/// text is not a TOML document.
pub open spec fn lists_feature(text: Seq<char>, name: Seq<char>) -> Option<bool> {
    match parsed_manifest(text) {
        Some(doc) => Some(lists(doc, name)),
        None => None,
    }
}

/// The rewritten text `out` reads back as it should: it is a TOML document
/// that lists the feature `name` and holds the language and the framework
/// of `before`.
pub open spec fn reads_back(before: Document, out: Seq<char>, name: Seq<char>) -> bool {
    match parsed_manifest(out) {
        Some(read) => lists(read, name) && keeps_settings(before, read),
        None => false,
    }
}

/// The manifest `text` rewritten with `features.<name> = true`. Nothing
/// where the text is not a TOML document, where its `features` cannot take
/// a key, or where the rewritten text does not read back as it should.
pub open spec fn marked(text: Seq<char>, name: Seq<char>) -> Option<Seq<char>> {
    match parsed_manifest(text) {
        Some(doc) => {
            let out = rendered(with_entry(doc, FEATURES@, name, true));
            if takes_features(doc) && reads_back(doc, out, name) {
                Some(out)
            } else {
                None
            }
        },
        None => None,
    }
}

/// What asking for the feature `name` gives: a refusal without a manifest
/// or with one that is not TOML, else whether the feature is listed.
pub open spec fn feature_listing(manifest: Option<Seq<char>>, name: Seq<char>) -> Result<
    bool,
    ScaffoldError,
> {
    match manifest {
        None => Err(ScaffoldError::NotInitialized),
        Some(text) => match lists_feature(text, name) {
            Some(listed) => Ok(listed),
            None => Err(ScaffoldError::ManifestMalformed),
        },
    }
}

/// What a command that installs the feature `name` is told before it
/// starts: it may go on without a manifest and with one that does not list
/// the feature, and is refused where the feature is listed.
pub open spec fn feature_check(manifest: Option<Seq<char>>, name: Seq<char>) -> Result<
    (),
    ScaffoldError,
> {
    match feature_listing(manifest, name) {
        Ok(true) => Err(ScaffoldError::AlreadyExists),
        Ok(false) => Ok(()),
        Err(ScaffoldError::NotInitialized) => Ok(()),
        Err(refusal) => Err(refusal),
    }
}

/// What marking the feature `name` as installed reports.
pub open spec fn marking_report(manifest: Option<Seq<char>>, name: Seq<char>) -> Result<
    (),
    ScaffoldError,
> {
    match manifest {
        None => Ok(()),
        Some(text) => match lists_feature(text, name) {
            Some(true) => Ok(()),
            Some(false) => if marked(text, name) is Some {
                Ok(())
            } else {
                Err(ScaffoldError::ManifestMalformed)
            },
            None => Err(ScaffoldError::ManifestMalformed),
        },
    }
}

/// The manifest after the feature `name` was marked as installed: as it was
/// where there is none, where the feature is listed and where the marking
/// is refused, else rewritten with the feature set to `true`.
pub open spec fn manifest_after(manifest: Option<Seq<char>>, name: Seq<char>) -> Option<
    Seq<char>,
> {
    match manifest {
        None => None,
        Some(text) => if lists_feature(text, name) == Some(false) && marked(text, name) is Some {
            marked(text, name)
        } else {
            manifest
        },
    }
}

/// The text of a fresh manifest for the given language and framework, with
/// an empty table of features.
pub open spec fn fresh_manifest(language: Seq<char>, framework: Seq<char>) -> Seq<char> {
    "[kraken]\nlanguage = \""@ + language + "\"\nframework = \""@ + framework
        + "\"\n\n[features]\n"@
}

/// Parses `text` with the `FromStr` of `toml_edit::Document`. The outcome
/// depends on the text alone.
#[verifier::external_body]
fn parse_manifest(text: &str) -> (parsed: Result<Document, TomlError>)
    ensures
        match parsed {
            Ok(doc) => parsed_manifest(text@) == Some(doc),
            Err(_) => parsed_manifest(text@) is None,
        },
{
    text.parse::<Document>()
}

/// The root item of the document, from `toml_edit::Document::as_item`.
#[verifier::external_body]
fn root_of(doc: &Document) -> (item: &Item)
    ensures
        *item == root(*doc),
{
    doc.as_item()
}

/// Looks `key` up in `item` with `toml_edit::Item::get`, which answers with
/// an item only for a key that a table or an inline table holds.
#[verifier::external_body]
fn lookup<'a>(item: &'a Item, key: &str) -> (found: Option<&'a Item>)
    ensures
        match found {
            Some(held) => entry(*item, key@) == Some(*held),
            None => entry(*item, key@) is None,
        },
{
    item.get(key)
}

/// Asks `toml_edit::Item::is_table_like` whether `item` is a table or an
/// inline table.
#[verifier::external_body]
fn is_table_like(item: &Item) -> (yes: bool)
    ensures
        yes == table_like(*item),
{
    item.is_table_like()
}

/// Sets `section.key` to `toml_edit::value(value)` through the `IndexMut`
/// of the document and of its items. Indexing makes a missing `section` an
/// inline table and a missing `key` an empty slot; it panics on a `section`
/// that is there and not like a table, which is left out here.
#[verifier::external_body]
fn put_entry(doc: &mut Document, section: &str, key: &str, value: bool)
    requires
        match entry(root(*old(doc)), section@) {
            Some(held) => table_like(held),
            None => true,
        },
    ensures
        *final(doc) == with_entry(*old(doc), section@, key@, value),
{
    doc[section][key] = toml_edit::value(value);
}

/// Asks `toml_edit::Item::as_bool` for the boolean that `item` is.
#[verifier::external_body]
fn as_truth(item: &Item) -> (value: Option<bool>)
    ensures
        value == truth(*item),
{
    item.as_bool()
}

/// Asks `toml_edit::Item::as_str` for the string that `item` is, and copies
/// it.
#[verifier::external_body]
fn as_text(item: &Item) -> (value: Option<String>)
    ensures
        text_of(value) == string(*item),
{
    item.as_str().map(String::from)
}

/// Writes the document out with its `Display`, through `to_string`.
#[verifier::external_body]
fn render(doc: &Document) -> (text: String)
    ensures
        text@ == rendered(*doc),
{
    doc.to_string()
}

/// Does the document list the feature `name`?
fn document_lists(doc: &Document, name: &str) -> (listed: bool)
    ensures
        listed == lists(*doc, name@),
{
    match lookup(root_of(doc), FEATURES) {
        Some(features) => match lookup(features, name) {
            Some(value) => is_set(as_truth(value)),
            None => false,
        },
        None => false,
    }
}

/// Does a value read from the table of features say that the feature is
/// installed? Only the boolean `true` does.
pub fn is_set(value: Option<bool>) -> (set: bool)
    ensures
        set == (value == Some(true)),
{
    match value {
        Some(held) => held,
        None => false,
    }
}

/// The setting `key` of the document.
fn document_setting(doc: &Document, key: &str) -> (value: Option<String>)
    ensures
        text_of(value) == setting(*doc, key@),
{
    match lookup(root_of(doc), SETTINGS) {
        Some(settings) => match lookup(settings, key) {
            Some(held) => as_text(held),
            None => None,
        },
        None => None,
    }
}

/// Are the two values, each of which may be missing, the same text?
pub fn same_value(first: &Option<String>, second: &Option<String>) -> (same: bool)
    ensures
        same == (text_of(*first) == text_of(*second)),
{
    match (first, second) {
        (Some(a), Some(b)) => same_text(a.as_str(), b.as_str()),
        (None, None) => true,
        _ => false,
    }
}

/// Does the rewritten text read back as it should after `before`?
fn read_back(
    language: &Option<String>,
    framework: &Option<String>,
    out: &str,
    name: &str,
    Ghost(before): Ghost<Document>,
) -> (good: bool)
    requires
        text_of(*language) == setting(before, LANGUAGE_KEY@),
        text_of(*framework) == setting(before, FRAMEWORK_KEY@),
    ensures
        good == reads_back(before, out@, name@),
{
    match parse_manifest(out) {
        Ok(read) => {
            document_lists(&read, name) && same_value(
                &document_setting(&read, LANGUAGE_KEY),
                language,
            ) && same_value(&document_setting(&read, FRAMEWORK_KEY), framework)
        },
        Err(_) => false,
    }
}

/// The setting `key` of the manifest text, where it is a TOML document that
/// holds one.
pub fn read_setting(text: &str, key: &str) -> (value: Option<String>)
    ensures
        text_of(value) == setting_of(text@, key@),
{
    match parse_manifest(text) {
        Ok(doc) => document_setting(&doc, key),
        Err(_) => None,
    }
}

/// Can the `features` of the document take a key?
fn document_takes_features(doc: &Document) -> (yes: bool)
    ensures
        yes == takes_features(*doc),
{
    match lookup(root_of(doc), FEATURES) {
        Some(features) => is_table_like(features),
        None => true,
    }
}

/// Does the manifest text list the feature `name`? Nothing where the text
/// is not a TOML document.
pub fn manifest_lists(text: &str, name: &str) -> (listed: Option<bool>)
    ensures
        listed == lists_feature(text@, name@),
{
    match parse_manifest(text) {
        Ok(doc) => Some(document_lists(&doc, name)),
        Err(_) => None,
    }
}

/// The manifest text rewritten with `features.<name> = true`, taken only
/// where it reads back with the feature listed and the settings kept.
pub fn mark_in_manifest(text: &str, name: &str) -> (out: Option<String>)
    ensures
        text_of(out) == marked(text@, name@),
{
    match parse_manifest(text) {
        Ok(doc) => {
            let mut doc = doc;
            if !document_takes_features(&doc) {
                return None;
            }
            let language = document_setting(&doc, LANGUAGE_KEY);
            let framework = document_setting(&doc, FRAMEWORK_KEY);
            let ghost before = doc;
            put_entry(&mut doc, FEATURES, name, true);
            let out = render(&doc);
            if read_back(&language, &framework, out.as_str(), name, Ghost(before)) {
                Some(out)
            } else {
                None
            }
        },
        Err(_) => None,
    }
}

/// What a listing read from a manifest means to the one who asked: a text
/// that is no TOML document is refused.
pub fn listing_outcome(listed: Option<bool>) -> (listing: Result<bool, ScaffoldError>)
    ensures
        listing == match listed {
            Some(held) => Ok::<bool, ScaffoldError>(held),
            None => Err::<bool, ScaffoldError>(ScaffoldError::ManifestMalformed),
        },
{
    match listed {
        Some(held) => Ok(held),
        None => Err(ScaffoldError::ManifestMalformed),
    }
}

/// What a listing means to a command that installs the feature: it may go
/// on where the feature is not listed and where there is no manifest, and
/// is refused where the feature is listed.
pub fn check_listing(listing: Result<bool, ScaffoldError>) -> (check: Result<(), ScaffoldError>)
    ensures
        check == match listing {
            Ok(true) => Err::<(), ScaffoldError>(ScaffoldError::AlreadyExists),
            Ok(false) => Ok::<(), ScaffoldError>(()),
            Err(ScaffoldError::NotInitialized) => Ok::<(), ScaffoldError>(()),
            Err(refusal) => Err::<(), ScaffoldError>(refusal),
        },
{
    match listing {
        Ok(true) => Err(ScaffoldError::AlreadyExists),
        Ok(false) => Ok(()),
        Err(ScaffoldError::NotInitialized) => Ok(()),
        Err(refusal) => Err(refusal),
    }
}

/// Is the feature `name` installed, going by the manifest?
pub fn has_feature(manifest: Option<&str>, name: &str) -> (listing: Result<bool, ScaffoldError>)
    ensures
        listing == feature_listing(view_of(manifest), name@),
{
    match manifest {
        None => Err(ScaffoldError::NotInitialized),
        Some(text) => listing_outcome(manifest_lists(text, name)),
    }
}

/// May a command that installs the feature `key` go on?
pub fn check_feature(manifest: Option<&str>, key: &str) -> (check: Result<(), ScaffoldError>)
    ensures
        check == feature_check(view_of(manifest), key@),
{
    check_listing(has_feature(manifest, key))
}

/// What marking the feature `key` as installed would report.
pub fn check_marking(manifest: Option<&str>, key: &str) -> (report: Result<(), ScaffoldError>)
    ensures
        report == marking_report(view_of(manifest), key@),
{
    match manifest {
        None => Ok(()),
        Some(text) => match manifest_lists(text, key) {
            Some(true) => Ok(()),
            Some(false) => match mark_in_manifest(text, key) {
                Some(_) => Ok(()),
                None => Err(ScaffoldError::ManifestMalformed),
            },
            None => Err(ScaffoldError::ManifestMalformed),
        },
    }
}

/// Marks the feature `key` as installed in the manifest: its entry is set
/// to `true`. Without a manifest and with a feature that is listed, nothing
/// is written.
pub fn add_feature(manifest: &mut Option<String>, key: &str) -> (report: Result<(), ScaffoldError>)
    ensures
        report == marking_report(text_of(*old(manifest)), key@),
        text_of(*final(manifest)) == manifest_after(text_of(*old(manifest)), key@),
{
    match manifest {
        None => Ok(()),
        Some(text) => match manifest_lists(text.as_str(), key) {
            Some(true) => Ok(()),
            Some(false) => match mark_in_manifest(text.as_str(), key) {
                Some(out) => {
                    *text = out;
                    Ok(())
                },
                None => Err(ScaffoldError::ManifestMalformed),
            },
            None => Err(ScaffoldError::ManifestMalformed),
        },
    }
}

/// Is there a manifest?
pub fn kraken_toml_exists(manifest: &Option<String>) -> (exists: bool)
    ensures
        exists == manifest is Some,
{
    manifest.is_some()
}

/// The text of a fresh manifest for the given language and framework.
pub fn add_kraken_toml(language: &str, framework: &str) -> (text: String)
    ensures
        text@ == fresh_manifest(language@, framework@),
{
    String::from_str("[kraken]\nlanguage = \"").concat(language).concat(
        "\"\nframework = \"",
    ).concat(framework).concat("\"\n\n[features]\n")
}

/// Round trip: a manifest in which a feature was marked lists that feature
/// when it is read back.
pub proof fn lemma_marked_is_listed(manifest: Option<Seq<char>>, name: Seq<char>)
    requires
        manifest is Some,
        marking_report(manifest, name) is Ok,
    ensures
        feature_listing(manifest_after(manifest, name), name) == Ok::<bool, ScaffoldError>(
            true,
        ),
{
}

/// Round trip: a manifest in which a feature was marked holds the language
/// and the framework that it held before.
pub proof fn lemma_marked_keeps_settings(manifest: Option<Seq<char>>, name: Seq<char>)
    requires
        manifest is Some,
        marking_report(manifest, name) is Ok,
    ensures
        setting_of(manifest_after(manifest, name)->Some_0, LANGUAGE_KEY@) == setting_of(
            manifest->Some_0,
            LANGUAGE_KEY@,
        ),
        setting_of(manifest_after(manifest, name)->Some_0, FRAMEWORK_KEY@) == setting_of(
            manifest->Some_0,
            FRAMEWORK_KEY@,
        ),
{
}

/// Marking a feature a second time reports success and writes nothing.
pub proof fn lemma_marking_settles(manifest: Option<Seq<char>>, name: Seq<char>)
    requires
        marking_report(manifest, name) is Ok,
    ensures
        marking_report(manifest_after(manifest, name), name) is Ok,
        manifest_after(manifest_after(manifest, name), name) == manifest_after(manifest, name),
{
}

} // verus!
