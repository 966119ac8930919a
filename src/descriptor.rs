//! Bundle descriptors: decoding and normalization into catalog entries.
use vstd::prelude::*;
use crate::category::{category_label, path_category, format_app_category, guess_category_from_path};
use crate::text::owned;

verus! {

#[verifier::external_type_specification]
#[verifier::external_body]
pub struct ExDictionary(plist::Dictionary);

/// The string-valued top-level entries of a property-list dictionary.
pub uninterp spec fn string_entries(d: plist::Dictionary) -> Map<Seq<char>, Seq<char>>;

/// Relies on `plist::Dictionary::get` and the `plist::Value::String` variant:
/// the string stored under `key`, if the entry exists and holds a string.
#[verifier::external_body]
pub(crate) fn lookup_string(d: &plist::Dictionary, key: &str) -> (r: Option<String>)
    ensures
        r.is_some() == string_entries(*d).contains_key(key@),
        r.is_some() ==> r->0@ == string_entries(*d)[key@],
{
    match d.get(key) {
        Some(plist::Value::String(s)) => Some(s.clone()),
        _ => None,
    }
}

/// The string-valued entries of the dictionary that an XML property list
/// decodes to; `None` when it does not decode or its root is no dictionary.
pub uninterp spec fn xml_dictionary_of(b: Seq<u8>) -> Option<Map<Seq<char>, Seq<char>>>;

/// Relies on `plist::Value::from_reader_xml`: decodes an XML property list
/// held in memory; a document whose root is not a dictionary gives `None`.
#[verifier::external_body]
fn decode_xml_dictionary(bytes: &[u8]) -> (r: Option<plist::Dictionary>)
    ensures
        r.is_some() == xml_dictionary_of(bytes@).is_some(),
        r.is_some() ==> string_entries(r->0) == xml_dictionary_of(bytes@)->0,
{
    match plist::Value::from_reader_xml(bytes) {
        Ok(plist::Value::Dictionary(d)) => Some(d),
        _ => None,
    }
}

/// Why a bundle gave no descriptor.
#[derive(Debug, Clone, Copy, PartialEq, Eq, Structural)]
pub enum DescriptorError {
    /// The bundle has no descriptor file.
    NotFound,
    /// The descriptor file is not a property-list dictionary.
    Decode,
}

/// Decodes the descriptor file of a bundle; `None` stands for a missing file,
/// which is told apart from a file that does not decode.
pub fn read_descriptor(contents: Option<Vec<u8>>) -> (r: Result<plist::Dictionary, DescriptorError>)
    ensures
        contents.is_none() <==> r == Err::<plist::Dictionary, DescriptorError>(
            DescriptorError::NotFound,
        ),
        contents.is_some() ==> (r.is_ok() == xml_dictionary_of(contents->0@).is_some()),
        contents.is_some() && r.is_err() ==> r == Err::<plist::Dictionary, DescriptorError>(
            DescriptorError::Decode,
        ),
        r.is_ok() ==> string_entries(r->Ok_0) == xml_dictionary_of(contents->0@)->0,
{
    match contents {
        None => Err(DescriptorError::NotFound),
        Some(bytes) => match decode_xml_dictionary(bytes.as_slice()) {
            Some(d) => Ok(d),
            None => Err(DescriptorError::Decode),
        },
    }
}

/// One installed application, as the catalog presents it.
#[derive(Debug, Clone)]
pub struct AppInfo {
    pub name: String,
    pub bundle_id: String,
    pub path: String,
    pub icon_path: Option<String>,
    pub category: Option<String>,
    pub version: Option<String>,
}

pub struct AppInfoView {
    pub name: Seq<char>,
    pub bundle_id: Seq<char>,
    pub path: Seq<char>,
    pub icon_path: Option<Seq<char>>,
    pub category: Option<Seq<char>>,
    pub version: Option<Seq<char>>,
}

pub open spec fn opt_view(o: Option<String>) -> Option<Seq<char>> {
    match o {
        Some(s) => Some(s@),
        None => None,
    }
}

impl View for AppInfo {
    type V = AppInfoView;

    open spec fn view(&self) -> AppInfoView {
        AppInfoView {
            name: self.name@,
            bundle_id: self.bundle_id@,
            path: self.path@,
            icon_path: opt_view(self.icon_path),
            category: opt_view(self.category),
            version: opt_view(self.version),
        }
    }
}

fn copy_opt(o: &Option<String>) -> (r: Option<String>)
    ensures
        r == *o,
{
    match o {
        Some(s) => Some(s.clone()),
        None => None,
    }
}

impl AppInfo {
    /// A field-by-field copy.
    pub fn copy(&self) -> (r: AppInfo)
        ensures
            r == *self,
    {
        AppInfo {
            name: self.name.clone(),
            bundle_id: self.bundle_id.clone(),
            path: self.path.clone(),
            icon_path: copy_opt(&self.icon_path),
            category: copy_opt(&self.category),
            version: copy_opt(&self.version),
        }
    }
}

/// The entry under `k`, when it is a non-empty string.
pub open spec fn nonempty_entry(m: Map<Seq<char>, Seq<char>>, k: Seq<char>) -> Option<Seq<char>> {
    if m.contains_key(k) && m[k].len() > 0 {
        Some(m[k])
    } else {
        None
    }
}

/// The first of two keys whose entry is a non-empty string.
pub open spec fn first_nonempty(m: Map<Seq<char>, Seq<char>>, k1: Seq<char>, k2: Seq<char>) -> Option<
    Seq<char>,
> {
    match nonempty_entry(m, k1) {
        Some(v) => Some(v),
        None => nonempty_entry(m, k2),
    }
}

/// Display name: display-name key, then bundle-name key, then "Unnamed".
pub open spec fn entry_name(m: Map<Seq<char>, Seq<char>>) -> Seq<char> {
    match first_nonempty(m, "CFBundleDisplayName"@, "CFBundleName"@) {
        Some(n) => n,
        None => "Unnamed"@,
    }
}

/// The identifier, when present and non-empty.
pub open spec fn entry_identifier(m: Map<Seq<char>, Seq<char>>) -> Option<Seq<char>> {
    nonempty_entry(m, "CFBundleIdentifier"@)
}

pub open spec fn entry_version(m: Map<Seq<char>, Seq<char>>) -> Option<Seq<char>> {
    first_nonempty(m, "CFBundleShortVersionString"@, "CFBundleVersion"@)
}

/// Category: the descriptor's code mapped to a label, else a guess from the path.
pub open spec fn entry_category(m: Map<Seq<char>, Seq<char>>, path: Seq<char>) -> Option<Seq<char>> {
    if m.contains_key("LSApplicationCategoryType"@) {
        Some(category_label(m["LSApplicationCategoryType"@]))
    } else {
        path_category(path)
    }
}

/// The entry that a descriptor with string entries `m` gives for the bundle at `path`.
pub open spec fn normalized(
    m: Map<Seq<char>, Seq<char>>,
    path: Seq<char>,
    icon: Option<Seq<char>>,
) -> Option<AppInfoView> {
    match entry_identifier(m) {
        None => None,
        Some(id) => Some(
            AppInfoView {
                name: entry_name(m),
                bundle_id: id,
                path,
                icon_path: icon,
                category: entry_category(m, path),
                version: entry_version(m),
            },
        ),
    }
}

fn nonempty_string(d: &plist::Dictionary, k: &str) -> (r: Option<String>)
    ensures
        opt_view(r) == nonempty_entry(string_entries(*d), k@),
{
    match lookup_string(d, k) {
        Some(s) if s.as_str().unicode_len() > 0 => Some(s),
        _ => None,
    }
}

fn first_nonempty_of(d: &plist::Dictionary, k1: &str, k2: &str) -> (r: Option<String>)
    ensures
        opt_view(r) == first_nonempty(string_entries(*d), k1@, k2@),
{
    match nonempty_string(d, k1) {
        Some(s) => Some(s),
        None => nonempty_string(d, k2),
    }
}

/// Normalizes a decoded descriptor of the bundle at `app_path` into a catalog
/// entry; `icon_path` is the icon already resolved for that bundle. Gives
/// `None` exactly when the descriptor has no non-empty identifier.
pub fn parse_app_info(dict: &plist::Dictionary, app_path: &str, icon_path: Option<String>) -> (r:
    Option<AppInfo>)
    ensures
        r.is_some() == normalized(string_entries(*dict), app_path@, opt_view(icon_path)).is_some(),
        r.is_some() ==> r->0@ == normalized(string_entries(*dict), app_path@, opt_view(icon_path))->0,
{
    let bundle_id = match nonempty_string(dict, "CFBundleIdentifier") {
        Some(id) => id,
        None => return None,
    };
    let name = match first_nonempty_of(dict, "CFBundleDisplayName", "CFBundleName") {
        Some(n) => n,
        None => owned("Unnamed"),
    };
    let version = first_nonempty_of(dict, "CFBundleShortVersionString", "CFBundleVersion");
    let category = match lookup_string(dict, "LSApplicationCategoryType") {
        Some(code) => Some(format_app_category(code.as_str())),
        None => guess_category_from_path(app_path),
    };
    Some(AppInfo { name, bundle_id, path: owned(app_path), icon_path, category, version })
}

/// A descriptor whose name comes from the bundle-name key alone (no display
/// name, or an empty one) gives that name; a non-empty display name wins over
/// it. Both need an identifier, without which there is no entry at all.
pub proof fn lemma_name_priority(m: Map<Seq<char>, Seq<char>>, path: Seq<char>, icon: Option<Seq<char>>)
    requires
        entry_identifier(m) is Some,
    ensures
        (m.contains_key("CFBundleName"@) && m["CFBundleName"@].len() > 0 && (!m.contains_key(
            "CFBundleDisplayName"@,
        ) || m["CFBundleDisplayName"@].len() == 0)) ==> normalized(m, path, icon)->0.name
            == m["CFBundleName"@],
        (m.contains_key("CFBundleDisplayName"@) && m["CFBundleDisplayName"@].len() > 0) ==> normalized(
            m,
            path,
            icon,
        )->0.name == m["CFBundleDisplayName"@],
{
}

/// A descriptor without an identifier entry gives no catalog entry.
pub proof fn lemma_no_identifier_no_entry(
    m: Map<Seq<char>, Seq<char>>,
    path: Seq<char>,
    icon: Option<Seq<char>>,
)
    requires
        !m.contains_key("CFBundleIdentifier"@),
    ensures
        normalized(m, path, icon) is None,
{
}

} // verus!
