//! File system paths: what the library asks of them, as text.
//!
//! Paths are those of the platform that the library is built for: what separates their components
//! and how they are encoded is the platform's.

use crate::error::SearchxError;
use crate::text::{replace_char, replaced};
use std::path::{Path, PathBuf};
use vstd::prelude::*;
use vstd::utf8::*;

verus! {

#[verifier::external_type_specification]
#[verifier::external_body]
pub struct ExPath(std::path::Path);

#[verifier::external_type_specification]
#[verifier::external_body]
pub struct ExPathBuf(std::path::PathBuf);

/// The bytes of a borrowed path, as the platform encodes them.
pub uninterp spec fn path_bytes(path: &Path) -> Seq<u8>;

/// The bytes of an owned path, as the platform encodes them.
pub uninterp spec fn path_buf_bytes(path: &PathBuf) -> Seq<u8>;

/// What `Path::display` writes.
pub uninterp spec fn displayed(path: Seq<u8>) -> Seq<char>;

/// What `Path::to_string_lossy` gives.
pub uninterp spec fn lossy(path: Seq<u8>) -> Seq<char>;

/// What `Path::strip_prefix` leaves of the first path, or nothing where the second is no prefix.
pub uninterp spec fn stripped(path: Seq<u8>, base: Seq<u8>) -> Option<Seq<u8>>;

/// What `Path::starts_with` answers.
pub uninterp spec fn has_prefix(path: Seq<u8>, base: Seq<u8>) -> bool;

/// What `Path::file_name` gives, where it is valid text.
pub uninterp spec fn file_name_text(path: Seq<u8>) -> Option<Seq<char>>;

/// What `Path::extension` gives, where it is valid text.
pub uninterp spec fn extension_text(path: Seq<u8>) -> Option<Seq<char>>;

/// What `Path::join` makes of two paths.
pub uninterp spec fn joined(base: Seq<u8>, rest: Seq<u8>) -> Seq<u8>;

/// `Path::display`, a function of the path. A path that is valid text is written as that text.
#[verifier::external_body]
pub(crate) fn display_text(path: &Path) -> (text: String)
    ensures
        text@ == displayed(path_bytes(path)),
        valid_utf8(path_bytes(path)) ==> text@ == decode_utf8(path_bytes(path)),
{
    path.display().to_string()
}

/// `Path::to_string_lossy`, a function of the path. A path that is valid text gives that text.
#[verifier::external_body]
pub(crate) fn lossy_text(path: &Path) -> (text: String)
    ensures
        text@ == lossy(path_bytes(path)),
        valid_utf8(path_bytes(path)) ==> text@ == decode_utf8(path_bytes(path)),
{
    path.to_string_lossy().into_owned()
}

/// `Path::strip_prefix`, a function of the two paths; its error is reduced to `None`.
#[verifier::external_body]
pub(crate) fn strip_prefix<'a>(path: &'a Path, base: &Path) -> (rest: Option<&'a Path>)
    ensures
        rest is Some == stripped(path_bytes(path), path_bytes(base)) is Some,
        rest is Some ==> path_bytes(rest->Some_0) == stripped(
            path_bytes(path),
            path_bytes(base),
        )->Some_0,
{
    path.strip_prefix(base).ok()
}

/// `Path::starts_with`, a function of the two paths.
#[verifier::external_body]
pub(crate) fn starts_with(path: &Path, base: &Path) -> (found: bool)
    ensures
        found == has_prefix(path_bytes(path), path_bytes(base)),
{
    path.starts_with(base)
}

/// `Path::file_name` as text (`OsStr::to_str`), a function of the path; `None` where there is no
/// name or it is no valid text.
#[verifier::external_body]
pub(crate) fn file_name(path: &Path) -> (name: Option<String>)
    ensures
        name.deep_view() == file_name_text(path_bytes(path)),
{
    path.file_name().and_then(|name| name.to_str()).map(|name| name.to_string())
}

/// `Path::extension` as text (`OsStr::to_str`), a function of the path; `None` where there is no
/// extension or it is no valid text.
#[verifier::external_body]
pub(crate) fn extension(path: &Path) -> (extension: Option<String>)
    ensures
        extension.deep_view() == extension_text(path_bytes(path)),
{
    path.extension().and_then(|extension| extension.to_str()).map(|text| text.to_string())
}

/// `PathBuf::from` of a text: the path whose bytes are those of the text.
#[verifier::external_body]
pub(crate) fn path_from_text(text: &str) -> (path: PathBuf)
    ensures
        path_buf_bytes(&path) == encode_utf8(text@),
{
    PathBuf::from(text)
}

/// `Path::join`, a function of the two paths.
#[verifier::external_body]
pub(crate) fn join(base: &Path, rest: &Path) -> (path: PathBuf)
    ensures
        path_buf_bytes(&path) == joined(path_bytes(base), path_bytes(rest)),
{
    base.join(rest)
}

/// `PathBuf::as_path`: the same path, borrowed.
#[verifier::external_body]
pub(crate) fn borrowed(path: &PathBuf) -> (path_slice: &Path)
    ensures
        path_bytes(path_slice) == path_buf_bytes(path),
{
    path.as_path()
}

/// The path of a name in a directory.
pub fn join_name(base: &PathBuf, name: &str) -> (path: PathBuf)
    ensures
        path_buf_bytes(&path) == joined(path_buf_bytes(base), encode_utf8(name@)),
{
    let name = path_from_text(name);
    join(borrowed(base), borrowed(&name))
}

/// `PathBuf::clone`: the same path.
pub assume_specification[ <PathBuf as Clone>::clone ](path: &PathBuf) -> (copy: PathBuf)
    ensures
        copy == *path,
;

/// What the scan reads of the path of a file.
#[derive(Debug, Clone)]
pub struct EntryPath {
    /// Below the scanned root, with `/` between the components.
    pub relative: String,
    /// As shown in error reports.
    pub display: String,
    pub file_name: Option<String>,
    pub extension: Option<String>,
}

/// An [`EntryPath`] as text.
pub struct EntryPathView {
    pub relative: Seq<char>,
    pub display: Seq<char>,
    pub file_name: Option<Seq<char>>,
    pub extension: Option<Seq<char>>,
}

impl View for EntryPath {
    type V = EntryPathView;

    open spec fn view(&self) -> EntryPathView {
        EntryPathView {
            relative: self.relative@,
            display: self.display@,
            file_name: self.file_name.deep_view(),
            extension: self.extension.deep_view(),
        }
    }
}

/// The path of a file below `root`, with `/` for `separator`; an error where `root` is no prefix.
pub fn normalize_relative_path(path: &Path, root: &Path, separator: char) -> (relative: Result<
    String,
    SearchxError,
>)
    ensures
        match stripped(path_bytes(path), path_bytes(root)) {
            Some(rest) => relative is Ok && relative->Ok_0@ == replaced(
                lossy(rest),
                separator,
                '/',
            ),
            None => relative is Err && relative->Err_0 is StripPrefix,
        },
{
    match strip_prefix(path, root) {
        Some(rest) => Ok(replace_char(lossy_text(rest).as_str(), separator, '/')),
        None => Err(SearchxError::StripPrefix),
    }
}

impl EntryPath {
    /// Reads what the scan needs of `path`, a file below `root`.
    pub fn from_path(path: &Path, root: &Path, separator: char) -> (entry: Result<
        EntryPath,
        SearchxError,
    >)
        ensures
            match stripped(path_bytes(path), path_bytes(root)) {
                Some(rest) => entry is Ok && entry->Ok_0@ == (EntryPathView {
                    relative: replaced(lossy(rest), separator, '/'),
                    display: displayed(path_bytes(path)),
                    file_name: file_name_text(path_bytes(path)),
                    extension: extension_text(path_bytes(path)),
                }),
                None => entry is Err && entry->Err_0 is StripPrefix,
            },
    {
        match normalize_relative_path(path, root, separator) {
            Ok(relative) => Ok(
                EntryPath {
                    relative,
                    display: display_text(path),
                    file_name: file_name(path),
                    extension: extension(path),
                },
            ),
            Err(error) => Err(error),
        }
    }
}

/// Whether the scan looks at an entry: everything outside the data directory.
pub fn should_walk_entry(path: &Path, data_dir: &Path) -> (walk: bool)
    ensures
        walk == !has_prefix(path_bytes(path), path_bytes(data_dir)),
{
    !starts_with(path, data_dir)
}

/// A path below the root is written the same on every platform: no separator but `/` is left in
/// it.
pub proof fn law_relative_path_has_one_separator(rest: Seq<char>, separator: char)
    requires
        separator != '/',
    ensures
        !replaced(rest, separator, '/').contains(separator),
{
}

/// Apart from the separator, a path below the root is written as it is, character by character.
pub proof fn law_relative_path_is_kept(rest: Seq<char>, separator: char, i: int)
    requires
        0 <= i < rest.len(),
    ensures
        replaced(rest, separator, '/').len() == rest.len(),
        rest[i] == separator ==> replaced(rest, separator, '/')[i] == '/',
        rest[i] != separator ==> replaced(rest, separator, '/')[i] == rest[i],
{
}

/// What the scan reads of a file below the root is the path from there, the name and the extension of
/// the file itself, and the path as it is displayed.
pub proof fn law_entry_is_read_from_the_path(
    path: &Path,
    root: &Path,
    separator: char,
    entry: Result<EntryPath, SearchxError>,
    relative: Result<String, SearchxError>,
    rest: Seq<u8>,
    i: int,
)
    requires
        call_ensures(EntryPath::from_path, (path, root, separator), entry),
        call_ensures(normalize_relative_path, (path, root, separator), relative),
        stripped(path_bytes(path), path_bytes(root)) == Some(rest),
    ensures
        entry is Ok && relative is Ok,
        entry->Ok_0.relative@ == relative->Ok_0@,
        entry->Ok_0.relative@.len() == lossy(rest).len(),
        0 <= i < lossy(rest).len() && lossy(rest)[i] != separator ==> entry->Ok_0.relative@[i]
            == lossy(rest)[i],
        0 <= i < lossy(rest).len() && lossy(rest)[i] == separator ==> entry->Ok_0.relative@[i]
            == '/',
        entry->Ok_0.display@ == displayed(path_bytes(path)),
        entry->Ok_0.file_name is Some <==> file_name_text(path_bytes(path)) is Some,
        entry->Ok_0.file_name is Some ==> Some(entry->Ok_0.file_name->Some_0@) == file_name_text(
            path_bytes(path),
        ),
        entry->Ok_0.extension is Some <==> extension_text(path_bytes(path)) is Some,
        entry->Ok_0.extension is Some ==> Some(entry->Ok_0.extension->Some_0@) == extension_text(
            path_bytes(path),
        ),
{
}

/// A path that is not below the root is refused, and the data directory is not walked; all else is.
pub proof fn law_walk_stays_below_the_root_and_out_of_the_data(
    path: &Path,
    root: &Path,
    separator: char,
    entry: Result<EntryPath, SearchxError>,
    data_dir: &Path,
    walk: bool,
)
    requires
        call_ensures(EntryPath::from_path, (path, root, separator), entry),
        call_ensures(should_walk_entry, (path, data_dir), walk),
    ensures
        entry is Err <==> stripped(path_bytes(path), path_bytes(root)) is None,
        walk <==> !has_prefix(path_bytes(path), path_bytes(data_dir)),
{
}

} // verus!
