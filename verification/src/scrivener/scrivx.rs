//! The binder of a Scrivener project and the checks that make a binder
//! item's UUID and file extension safe to use inside a path.
use vstd::prelude::*;

use crate::error::ChiknError;
use crate::paths::{join_path, path_join};
use crate::text::{chars_of, string_of, trim_chars, trim_ws, debug_str, debug_text, ascii_alnum, ascii_hex,
    is_ascii_alnum, is_ascii_hex, concat};

verus! {

/// A parsed Scrivener project.
pub struct ScrivenerProject {
    /// Project name.
    pub name: String,
    /// Scrivener version.
    pub version: String,
    /// Root binder items (document hierarchy).
    pub binder: Vec<BinderItem>,
}

/// A document or folder of a Scrivener binder.
pub struct BinderItem {
    /// Unique identifier.
    pub uuid: String,
    /// Item type (Text, Folder, DraftFolder, ...).
    pub item_type: String,
    /// Creation timestamp.
    pub created: Option<String>,
    /// Modified timestamp.
    pub modified: Option<String>,
    /// Title.
    pub title: Option<String>,
    /// Child items.
    pub children: ChildrenContainer,
    /// Labels, status and the like.
    pub metadata: Option<BinderMetadata>,
}

/// The child items of a binder item.
#[derive(Default)]
pub struct ChildrenContainer {
    pub items: Vec<BinderItem>,
}

/// Scrivener metadata of a binder item.
pub struct BinderMetadata {
    /// Label (e.g. "Scene", "Chapter").
    pub label: Option<String>,
    /// Status (e.g. "First Draft", "Revised").
    pub status: Option<String>,
    /// Keywords.
    pub keywords: Option<Vec<String>>,
    /// Synopsis.
    pub synopsis: Option<String>,
    /// Section type UUID.
    pub section_type: Option<String>,
    /// Include-in-compile flag as written in the file.
    pub include_in_compile: Option<String>,
    /// Icon file name.
    pub icon_file_name: Option<String>,
    /// File extension of a non-text item (e.g. "pdf", "png").
    pub file_extension: Option<String>,
}

/// A hyphenated UUID: 36 characters, `'-'` at positions 8, 13, 18 and 23,
/// ASCII hexadecimal digits everywhere else.
pub open spec fn is_hyphenated_uuid(s: Seq<char>) -> bool {
    &&& s.len() == 36
    &&& forall|k: int| 0 <= k < 36 ==> #[trigger] uuid_char_ok(k, s[k])
}

/// Whether `c` may stand at position `k` of a hyphenated UUID.
pub open spec fn uuid_char_ok(k: int, c: char) -> bool {
    if k == 8 || k == 13 || k == 18 || k == 23 { c == '-' } else { ascii_hex(c) }
}

/// The error for a UUID that is not hyphenated.
pub open spec fn invalid_uuid_message(uuid: Seq<char>) -> Seq<char> {
    "Invalid Scrivener BinderItem UUID: "@ + debug_text(uuid)
}

/// Checks a binder item's UUID before it is used as a path component. Only
/// a hyphenated UUID passes; such a text is one plain path component (no
/// separator, no dot, no drive prefix).
pub fn validate_scrivener_uuid(uuid: &str) -> (r: Result<(), ChiknError>)
    ensures
        is_hyphenated_uuid(uuid@) ==> r is Ok,
        !is_hyphenated_uuid(uuid@) ==> (r matches Err(ChiknError::InvalidFormat(m)) && m@ == invalid_uuid_message(uuid@)),
{
    let cs = chars_of(uuid);
    let mut ok = cs.len() == 36;
    if ok {
        let mut k: usize = 0;
        while k < 36
            invariant
                k <= 36,
                cs@ == uuid@,
                cs@.len() == 36,
                ok == (forall|j: int| 0 <= j < k ==> #[trigger] uuid_char_ok(j, cs@[j])),
            decreases 36 - k,
        {
            let c = cs[k];
            let good = if k == 8 || k == 13 || k == 18 || k == 23 { c == '-' } else { is_ascii_hex(c) };
            proof {
                assert(good == uuid_char_ok(k as int, c));
            }
            ok = ok && good;
            k = k + 1;
        }
    }
    if !ok {
        let d = debug_str(uuid);
        return Err(ChiknError::InvalidFormat(concat("Invalid Scrivener BinderItem UUID: ", d.as_str())));
    }
    Ok(())
}

/// `s` without one leading `'.'`.
pub open spec fn strip_dot(s: Seq<char>) -> Seq<char> {
    if s.len() > 0 && s[0] == '.' { s.drop_first() } else { s }
}

/// The extension as it is used: trimmed of whitespace, without one leading
/// `'.'`.
pub open spec fn cleaned_extension(raw: Seq<char>) -> Seq<char> {
    strip_dot(trim_ws(raw))
}

/// An extension that is safe inside a file name: 1 to 32 ASCII letters or
/// digits.
pub open spec fn extension_ok(e: Seq<char>) -> bool {
    &&& 0 < e.len() <= 32
    &&& forall|k: int| 0 <= k < e.len() ==> #[trigger] ascii_alnum(e[k])
}

/// Sanitizing an extension is idempotent: an accepted extension cleans to
/// itself, so sanitizing the result again accepts it unchanged.
pub proof fn law_sanitize_extension_idempotent(raw: Seq<char>)
    requires
        extension_ok(cleaned_extension(raw)),
    ensures
        cleaned_extension(cleaned_extension(raw)) == cleaned_extension(raw),
        extension_ok(cleaned_extension(cleaned_extension(raw))),
{
    let e = cleaned_extension(raw);
    assert(ascii_alnum(e[0]));
    assert(ascii_alnum(e[e.len() - 1]));
    assert(crate::text::trim_start_ws(e) == e);
    assert(crate::text::trim_end_ws(e) == e);
}

/// The error for an extension that is not safe.
pub open spec fn invalid_extension_message(e: Seq<char>) -> Seq<char> {
    "Invalid Scrivener FileExtension path component: "@ + debug_text(e)
}

/// Cleans a media file extension before it goes into a path: surrounding
/// whitespace and one leading `'.'` are dropped, and what is left must be 1
/// to 32 ASCII letters or digits (which also makes it one plain path
/// component).
pub fn sanitize_file_extension(extension: &str) -> (r: Result<String, ChiknError>)
    ensures
        extension_ok(cleaned_extension(extension@)) ==> (r matches Ok(x) && x@ == cleaned_extension(extension@)),
        !extension_ok(cleaned_extension(extension@)) ==> (r matches Err(ChiknError::InvalidFormat(m))
            && m@ == invalid_extension_message(cleaned_extension(extension@))),
{
    let raw = chars_of(extension);
    let trimmed = trim_chars(&raw);
    let mut cs: Vec<char> = Vec::new();
    let mut start: usize = 0;
    if trimmed.len() > 0 && trimmed[0] == '.' {
        start = 1;
    }
    let mut k: usize = start;
    while k < trimmed.len()
        invariant
            start <= k <= trimmed.len(),
            start <= 1,
            cs@ == trimmed@.subrange(start as int, k as int),
        decreases trimmed.len() - k,
    {
        cs.push(trimmed[k]);
        assert(trimmed@.subrange(start as int, k + 1) =~= trimmed@.subrange(start as int, k as int).push(trimmed@[k as int]));
        k = k + 1;
    }
    proof {
        assert(cs@ =~= cleaned_extension(extension@));
    }
    let mut ok = cs.len() > 0 && cs.len() <= 32;
    let mut j: usize = 0;
    while j < cs.len()
        invariant
            j <= cs.len(),
            ok == (0 < cs@.len() <= 32 && forall|q: int| 0 <= q < j ==> #[trigger] ascii_alnum(cs@[q])),
        decreases cs.len() - j,
    {
        ok = ok && is_ascii_alnum(cs[j]);
        j = j + 1;
    }
    let cleaned = string_of(&cs);
    if !ok {
        let d = debug_str(cleaned.as_str());
        return Err(ChiknError::InvalidFormat(concat("Invalid Scrivener FileExtension path component: ", d.as_str())));
    }
    Ok(cleaned)
}

/// The path of the folder that holds a binder item's files.
pub open spec fn item_folder(scriv_path: Seq<char>, uuid: Seq<char>) -> Seq<char> {
    path_join(path_join(path_join(scriv_path, "Files"@), "Data"@), uuid)
}

fn item_folder_path(scriv_path: &str, uuid: &str) -> (r: String)
    ensures
        r@ == item_folder(scriv_path@, uuid@),
{
    let files = join_path(scriv_path, "Files");
    let data = join_path(files.as_str(), "Data");
    join_path(data.as_str(), uuid)
}

/// Path of the RTF text of a binder item: `Files/Data/<uuid>/content.rtf`
/// under the project, once the UUID has passed `validate_scrivener_uuid`.
pub fn get_rtf_path(scriv_path: &str, uuid: &str) -> (r: Result<String, ChiknError>)
    ensures
        is_hyphenated_uuid(uuid@) ==> (r matches Ok(p) && p@ == path_join(item_folder(scriv_path@, uuid@), "content.rtf"@)),
        !is_hyphenated_uuid(uuid@) ==> (r matches Err(ChiknError::InvalidFormat(m)) && m@ == invalid_uuid_message(uuid@)),
{
    match validate_scrivener_uuid(uuid) {
        Ok(()) => {},
        Err(e) => {
            return Err(e);
        },
    }
    let folder = item_folder_path(scriv_path, uuid);
    Ok(join_path(folder.as_str(), "content.rtf"))
}

/// Path of the file of a media binder item: `Files/Data/<uuid>/content.<ext>`
/// under the project. The UUID is checked first, then the extension is
/// cleaned by `sanitize_file_extension`.
pub fn get_media_path(scriv_path: &str, uuid: &str, extension: &str) -> (r: Result<String, ChiknError>)
    ensures
        !is_hyphenated_uuid(uuid@) ==> (r matches Err(ChiknError::InvalidFormat(m)) && m@ == invalid_uuid_message(uuid@)),
        is_hyphenated_uuid(uuid@) && !extension_ok(cleaned_extension(extension@)) ==> (r matches Err(ChiknError::InvalidFormat(m))
            && m@ == invalid_extension_message(cleaned_extension(extension@))),
        is_hyphenated_uuid(uuid@) && extension_ok(cleaned_extension(extension@)) ==> (r matches Ok(p)
            && p@ == path_join(item_folder(scriv_path@, uuid@), "content."@ + cleaned_extension(extension@))),
{
    match validate_scrivener_uuid(uuid) {
        Ok(()) => {},
        Err(e) => {
            return Err(e);
        },
    }
    let ext = match sanitize_file_extension(extension) {
        Ok(x) => x,
        Err(e) => {
            return Err(e);
        },
    };
    let folder = item_folder_path(scriv_path, uuid);
    let file = concat("content.", ext.as_str());
    Ok(join_path(folder.as_str(), file.as_str()))
}

} // verus!
