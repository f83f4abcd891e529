//! Information on a build, read from a section of the program's own file.
use vstd::prelude::*;
use vstd::string::*;

use crate::text;

verus! {

/// The data of the section `name` of the ELF file `bytes`: nothing where the file cannot be read
/// as such, and nothing inside where it has no such section.
pub uninterp spec fn elf_section(bytes: Seq<u8>, name: Seq<char>) -> Option<Option<Seq<u8>>>;

/// The characters of an optional string.
pub open spec fn opt_view(s: Option<String>) -> Option<Seq<char>> {
    match s {
        Some(s) => Some(s@),
        None => None,
    }
}

/// `ElfBytes::minimal_parse`, then `ElfBytes::section_header_by_name` and
/// `ElfBytes::section_data`: the data of a section, as a function of the bytes of the file and the
/// name of the section.
#[verifier::external_body]
fn read_elf_section(bytes: &Vec<u8>, name: &str) -> (r: Option<Option<Vec<u8>>>)
    ensures
        (match r {
            Some(Some(data)) => Some(Some(data@)),
            Some(None) => Some(None),
            None => None,
        }) == elf_section(bytes@, name@),
{
    let file = elf::ElfBytes::<elf::endian::AnyEndian>::minimal_parse(bytes).ok()?;
    match file.section_header_by_name(name).ok()? {
        Some(header) => Some(Some(file.section_data(&header).ok()?.0.to_vec())),
        None => Some(None),
    }
}

/// The string under `key` in the JSON text `json`: nothing where the text is not JSON, and nothing
/// inside where there is no string under the key.
pub uninterp spec fn json_string(json: Seq<char>, key: Seq<char>) -> Option<Option<Seq<char>>>;

/// `serde_json::from_str`, then `Value::index` and `Value::as_str`: a string in a JSON text, as a
/// function of the text and the key.
#[verifier::external_body]
fn read_json_string(json: &str, key: &str) -> (r: Option<Option<String>>)
    ensures
        (match r {
            Some(Some(s)) => Some(Some(s@)),
            Some(None) => Some(None),
            None => None,
        }) == json_string(json@, key@),
{
    let value: serde_json::Value = serde_json::from_str(json).ok()?;
    Some(value[key].as_str().map(|s| s.to_owned()))
}

/// `String::from_utf8`: the text that bytes encode, if they do.
#[verifier::external_body]
fn text_from_utf8(bytes: Vec<u8>) -> (r: Option<String>)
    ensures
        r is Some <==> vstd::utf8::valid_utf8(bytes@),
        r matches Some(s) ==> s@ == vstd::utf8::decode_utf8(bytes@),
{
    String::from_utf8(bytes).ok()
}

/// Why there is no information on the build.
#[derive(Clone, Copy, Debug, PartialEq, Eq, Structural)]
pub enum BuildInfoError {
    /// The program's file cannot be read as an ELF file.
    NotElf,
    /// The section is not there.
    NoHeader,
    /// The section does not end in its one zero byte.
    NotTerminated,
    /// The section is not UTF-8.
    NotText,
    /// The section is not JSON.
    NotJson,
}

/// `bytes` is a text with a zero byte at its end and nowhere else.
pub open spec fn is_terminated(bytes: Seq<u8>) -> bool {
    &&& bytes.len() > 0
    &&& bytes.last() == 0
    &&& forall|i: int| 0 <= i < bytes.len() - 1 ==> #[trigger] bytes[i] != 0
}

/// The text that a section holds.
pub open spec fn section_text(bytes: Seq<u8>) -> Result<Seq<char>, BuildInfoError> {
    if !is_terminated(bytes) {
        Err(BuildInfoError::NotTerminated)
    } else if !vstd::utf8::valid_utf8(bytes.drop_last()) {
        Err(BuildInfoError::NotText)
    } else {
        Ok(vstd::utf8::decode_utf8(bytes.drop_last()))
    }
}

/// The text that a section holds, without the zero byte at its end.
pub fn terminated_text(bytes: &Vec<u8>) -> (r: Result<String, BuildInfoError>)
    ensures
        match (r, section_text(bytes@)) {
            (Ok(s), Ok(v)) => s@ == v,
            (Err(e), Err(f)) => e == f,
            _ => false,
        },
{
    let n: usize = bytes.len();
    if n == 0 || bytes[n - 1] != 0 {
        return Err(BuildInfoError::NotTerminated);
    }
    let mut content: Vec<u8> = Vec::new();
    let mut i: usize = 0;
    while i < n - 1
        invariant
            n == bytes@.len(),
            n > 0,
            i <= n - 1,
            content@ == bytes@.take(i as int),
            forall|k: int| 0 <= k < i ==> #[trigger] bytes@[k] != 0,
        decreases n - 1 - i,
    {
        if bytes[i] == 0 {
            return Err(BuildInfoError::NotTerminated);
        }
        content.push(bytes[i]);
        assert(bytes@.take(i + 1) =~= bytes@.take(i as int).push(bytes@[i as int]));
        i = i + 1;
    }
    assert(bytes@.take(n - 1) =~= bytes@.drop_last());
    match text_from_utf8(content) {
        Some(s) => Ok(s),
        None => Err(BuildInfoError::NotText),
    }
}

/// A part of the information, which may be missing.
pub open spec fn or_unknown(s: Option<Seq<char>>) -> Seq<char> {
    match s {
        Some(s) => s,
        None => "(unknown)"@,
    }
}

/// The information as it is shown.
pub open spec fn build_info_text(revision: Option<Seq<char>>, time: Option<Seq<char>>) -> Seq<
    char,
> {
    "revision: "@ + or_unknown(revision) + ", build time: "@ + or_unknown(time)
}

/// The information as it is shown.
pub fn show_build_info(revision: Option<String>, time: Option<String>) -> (r: String)
    ensures
        r@ == build_info_text(opt_view(revision), opt_view(time)),
{
    let revision = match revision {
        Some(s) => s,
        None => "(unknown)".to_owned(),
    };
    let time = match time {
        Some(s) => s,
        None => "(unknown)".to_owned(),
    };
    text::concat4("revision: ", revision.as_str(), ", build time: ", time.as_str())
}

/// What a JSON text says of the build.
pub open spec fn info_in_json(json: Seq<char>) -> Result<Seq<char>, BuildInfoError> {
    match (json_string(json, "revision"@), json_string(json, "time"@)) {
        (Some(revision), Some(time)) => Ok(build_info_text(revision, time)),
        _ => Err(BuildInfoError::NotJson),
    }
}

/// What the program's file says of the build.
pub open spec fn info_in_elf(bytes: Seq<u8>) -> Result<Seq<char>, BuildInfoError> {
    match elf_section(bytes, "fb_build_info"@) {
        None => Err(BuildInfoError::NotElf),
        Some(None) => Err(BuildInfoError::NoHeader),
        Some(Some(data)) => match section_text(data) {
            Err(e) => Err(e),
            Ok(json) => info_in_json(json),
        },
    }
}

/// A result is the one stated, the text taken by its characters.
pub open spec fn text_matches(
    r: Result<String, BuildInfoError>,
    v: Result<Seq<char>, BuildInfoError>,
) -> bool {
    match (r, v) {
        (Ok(s), Ok(v)) => s@ == v,
        (Err(e), Err(f)) => e == f,
        _ => false,
    }
}

/// What the bytes of the program's file say of the build.
pub fn fb_build_info_from_elf(bin_bytes: &Vec<u8>) -> (r: Result<String, BuildInfoError>)
    ensures
        text_matches(r, info_in_elf(bin_bytes@)),
{
    let data = match read_elf_section(bin_bytes, "fb_build_info") {
        None => {
            return Err(BuildInfoError::NotElf);
        },
        Some(None) => {
            return Err(BuildInfoError::NoHeader);
        },
        Some(Some(data)) => data,
    };
    let json = match terminated_text(&data) {
        Ok(json) => json,
        Err(e) => {
            return Err(e);
        },
    };
    let revision = read_json_string(json.as_str(), "revision");
    let time = read_json_string(json.as_str(), "time");
    match (revision, time) {
        (Some(revision), Some(time)) => Ok(show_build_info(revision, time)),
        _ => Err(BuildInfoError::NotJson),
    }
}

/// The information on the build, if there is any. Only on Unix can there be.
pub fn build_info(bin_bytes: Option<&Vec<u8>>, unix: bool) -> (r: String)
    ensures
        r@ == (match bin_bytes {
            Some(bytes) => match info_in_elf(bytes@) {
                Ok(s) if unix => s,
                _ => "No build info available."@,
            },
            None => "No build info available."@,
        }),
{
    match bin_bytes {
        Some(bytes) if unix => match fb_build_info_from_elf(bytes) {
            Ok(s) => s,
            Err(_) => "No build info available.".to_owned(),
        },
        _ => "No build info available.".to_owned(),
    }
}

/// The text of a section is all that stands before its end, which is the only zero in it.
pub proof fn law_text_before_the_end(data: Seq<u8>)
    requires
        forall|k: int| 0 <= k < data.len() ==> #[trigger] data[k] != 0,
    ensures
        vstd::utf8::valid_utf8(data) ==> section_text(data.push(0)) == Ok::<
            Seq<char>,
            BuildInfoError,
        >(vstd::utf8::decode_utf8(data)),
        !vstd::utf8::valid_utf8(data) ==> section_text(data.push(0)) == Err::<
            Seq<char>,
            BuildInfoError,
        >(BuildInfoError::NotText),
        section_text(data) == Err::<Seq<char>, BuildInfoError>(BuildInfoError::NotTerminated),
        section_text(data.push(0).push(0)) == Err::<Seq<char>, BuildInfoError>(
            BuildInfoError::NotTerminated,
        ),
{
    let t = data.push(0);
    assert(t.drop_last() =~= data);
    assert forall|k: int| 0 <= k < t.len() - 1 implies #[trigger] t[k] != 0 by {
        assert(t[k] == data[k]);
    }
    if data.len() > 0 {
        assert(data.last() == data[data.len() - 1]);
    }
    let u = t.push(0);
    assert(u[data.len() as int] == 0);
}

/// What is not known is shown as unknown, and what is known as it is.
pub proof fn law_what_is_known_of_a_build(revision: Seq<char>, time: Seq<char>)
    ensures
        build_info_text(Some(revision), Some(time)) == "revision: "@ + revision
            + ", build time: "@ + time,
        build_info_text(None, Some(time)) == "revision: "@ + "(unknown)"@ + ", build time: "@ + time,
        build_info_text(Some(revision), None) == "revision: "@ + revision + ", build time: "@
            + "(unknown)"@,
{
}

/// Where the information of a build comes from: both fields of what the section holds. Without the
/// section, or with anything else in it, there is none.
pub proof fn law_where_build_info_comes_from(
    bytes: Seq<u8>,
    data: Seq<u8>,
    json: Seq<char>,
    revision: Option<Seq<char>>,
    time: Option<Seq<char>>,
    e: BuildInfoError,
)
    ensures
        elf_section(bytes, "fb_build_info"@) is None ==> info_in_elf(bytes) == Err::<
            Seq<char>,
            BuildInfoError,
        >(BuildInfoError::NotElf),
        elf_section(bytes, "fb_build_info"@) == Some(None::<Seq<u8>>) ==> info_in_elf(bytes)
            == Err::<Seq<char>, BuildInfoError>(BuildInfoError::NoHeader),
        elf_section(bytes, "fb_build_info"@) == Some(Some(data)) && section_text(data) == Err::<
            Seq<char>,
            BuildInfoError,
        >(e) ==> info_in_elf(bytes) == Err::<Seq<char>, BuildInfoError>(e),
        elf_section(bytes, "fb_build_info"@) == Some(Some(data)) && section_text(data) == Ok::<
            Seq<char>,
            BuildInfoError,
        >(json) && json_string(json, "revision"@) == Some(revision) && json_string(json, "time"@)
            == Some(time) ==> info_in_elf(bytes) == Ok::<Seq<char>, BuildInfoError>(
            build_info_text(revision, time),
        ),
        json_string(json, "revision"@) is None || json_string(json, "time"@) is None
            ==> info_in_json(json) == Err::<Seq<char>, BuildInfoError>(BuildInfoError::NotJson),
{
}

} // verus!
