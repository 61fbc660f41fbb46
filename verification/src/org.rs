//! Organization requisites: the first-run placeholder, logo upload rules
//! and the one-time migration from `org.json`.

use base64::Engine;
use vstd::prelude::*;
use crate::error::AppError;
use crate::text::{decimal, decimal_chars, push_all};

verus! {

/// Organization data printed in the header of every document.
#[derive(Clone, Debug, PartialEq, Eq)]
pub struct OrgData {
    pub name: String,
    pub inn: String,
    pub kpp: String,
    pub address: String,
    /// Logo file path relative to the executable's folder; may be empty.
    pub logo_path: String,
}

impl OrgData {
    /// The placeholder written on first run when `org.json` is missing.
    pub fn placeholder() -> (o: Self)
        ensures
            o.name@ == "Ваша организация"@,
            o.inn@ == "0000000000"@,
            o.kpp@ == "000000000"@,
            o.address@ == "Адрес не указан"@,
            o.logo_path@.len() == 0,
    {
        OrgData {
            name: "Ваша организация".to_owned(),
            inn: "0000000000".to_owned(),
            kpp: "000000000".to_owned(),
            address: "Адрес не указан".to_owned(),
            logo_path: String::new(),
        }
    }
}

/// Largest accepted logo, in bytes (512 KiB).
pub const LOGO_MAX_BYTES: usize = 524288;

/// Lowercase form of a string (`str::to_lowercase`, full Unicode mapping).
pub uninterp spec fn lowercase(s: Seq<char>) -> Seq<char>;

/// `str::to_lowercase`; the result is the named lowercase mapping of `s`.
#[verifier::external_body]
pub fn to_lowercase(s: &str) -> (r: String)
    ensures
        r@ == lowercase(s@),
{
    s.to_lowercase()
}

/// Logo MIME types that may be stored.
pub open spec fn allowed_logo_mime(m: Seq<char>) -> bool {
    m == "image/png"@ || m == "image/jpeg"@ || m == "image/svg+xml"@
}

/// Message for an oversized logo.
pub open spec fn logo_too_large_message(len: nat) -> Seq<char> {
    "Логотип слишком большой: "@ + decimal(len) + " байт (максимум 512 КБ)"@
}

/// Message for a refused logo type.
pub open spec fn logo_mime_message(mime: Seq<char>) -> Seq<char> {
    "Неподдерживаемый тип файла: "@ + mime + ". Разрешены: image/png, image/jpeg, image/svg+xml"@
}

/// Checks an uploaded logo before it is stored: at most 512 KiB, and a PNG,
/// JPEG or SVG type (compared case-insensitively).
pub fn validate_logo(byte_len: usize, logo_mime: &str) -> (r: Result<(), AppError>)
    ensures
        byte_len > LOGO_MAX_BYTES ==> (r matches Err(AppError::Validation { field, message })
            && field@ == "logo"@ && message@ == logo_too_large_message(byte_len as nat)),
        byte_len <= LOGO_MAX_BYTES && !allowed_logo_mime(lowercase(logo_mime@)) ==> (r matches Err(AppError::Validation { field, message })
            && field@ == "logo_mime"@ && message@ == logo_mime_message(logo_mime@)),
        byte_len <= LOGO_MAX_BYTES && allowed_logo_mime(lowercase(logo_mime@)) ==> r is Ok,
{
    if byte_len > LOGO_MAX_BYTES {
        let mut msg = String::new();
        msg.append("Логотип слишком большой: ");
        push_all(&mut msg, &decimal_chars(byte_len as u64));
        msg.append(" байт (максимум 512 КБ)");
        return Err(AppError::Validation { field: "logo".to_owned(), message: msg });
    }
    let lower = to_lowercase(logo_mime);
    let l = lower.as_str();
    if !(crate::text::str_eq(l, "image/png") || crate::text::str_eq(l, "image/jpeg")
        || crate::text::str_eq(l, "image/svg+xml"))
    {
        let mut msg = String::new();
        msg.append("Неподдерживаемый тип файла: ");
        msg.append(logo_mime);
        msg.append(". Разрешены: image/png, image/jpeg, image/svg+xml");
        return Err(AppError::Validation { field: "logo_mime".to_owned(), message: msg });
    }
    Ok(())
}

/// MIME type for a logo file extension (already lowercased).
pub open spec fn mime_for_extension(ext: Seq<char>) -> Option<Seq<char>> {
    if ext == "png"@ {
        Some("image/png"@)
    } else if ext == "jpg"@ || ext == "jpeg"@ {
        Some("image/jpeg"@)
    } else if ext == "svg"@ {
        Some("image/svg+xml"@)
    } else {
        None
    }
}

/// The logo types that a file extension yields are exactly the types an
/// upload accepts: PNG, JPEG and SVG each come from an extension, and no
/// extension yields any other type.
pub proof fn extension_types_are_the_accepted_types(ext: Seq<char>, mime: Seq<char>)
    ensures
        mime_for_extension(ext) matches Some(m) ==> allowed_logo_mime(m),
        allowed_logo_mime(mime) ==> exists|e: Seq<char>| #[trigger] mime_for_extension(e) == Some(mime),
{
    if allowed_logo_mime(mime) {
        reveal_strlit("png");
        reveal_strlit("jpg");
        reveal_strlit("svg");
        if mime == "image/png"@ {
            assert(mime_for_extension("png"@) == Some(mime));
        } else if mime == "image/jpeg"@ {
            assert("jpg"@[0] != "png"@[0]);
            assert(mime_for_extension("jpg"@) == Some(mime));
        } else {
            assert("svg"@[0] != "png"@[0]);
            assert("svg"@[0] != "jpg"@[0]);
            reveal_strlit("jpeg");
            assert("svg"@.len() != "jpeg"@.len());
            assert(mime_for_extension("svg"@) == Some(mime));
        }
    }
}

/// The logo that the `org.json` migration carries over: an existing file
/// of at most 512 KiB whose lowercased extension is png, jpg, jpeg or svg;
/// anything else is skipped (`None`).
pub fn migration_logo_mime(extension: &str, byte_len: usize) -> (r: Option<&'static str>)
    ensures
        byte_len > LOGO_MAX_BYTES ==> r is None,
        byte_len <= LOGO_MAX_BYTES ==> (match mime_for_extension(lowercase(extension@)) {
            Some(m) => r matches Some(x) && x@ == m,
            None => r is None,
        }),
{
    if byte_len > LOGO_MAX_BYTES {
        return None;
    }
    let lower = to_lowercase(extension);
    let e = lower.as_str();
    if crate::text::str_eq(e, "png") {
        Some("image/png")
    } else if crate::text::str_eq(e, "jpg") || crate::text::str_eq(e, "jpeg") {
        Some("image/jpeg")
    } else if crate::text::str_eq(e, "svg") {
        Some("image/svg+xml")
    } else {
        None
    }
}

/// The stored organization still carries the placeholder name, so the
/// legacy `org.json` should be migrated into the database.
pub fn needs_org_migration(stored_org_name: &str) -> (b: bool)
    ensures
        b == (stored_org_name@ == "Ваша организация"@),
{
    crate::text::str_eq(stored_org_name, "Ваша организация")
}

/// A blank `logo_path` means "no logo": nothing to resolve on disk.
pub fn logo_path_is_set(org: &OrgData) -> (b: bool)
    ensures
        b == !crate::text::is_blank(org.logo_path@),
{
    !crate::text::blank(org.logo_path.as_str())
}

/// The character of a 6-bit value in the standard base64 alphabet.
pub open spec fn b64_digit(v: int) -> char {
    if v < 26 {
        ('A' as int + v) as char
    } else if v < 52 {
        ('a' as int + (v - 26)) as char
    } else if v < 62 {
        ('0' as int + (v - 52)) as char
    } else if v == 62 {
        '+'
    } else {
        '/'
    }
}

/// The standard base64 text (RFC 4648 alphabet, `=` padding) of `bytes`:
/// each group of three bytes gives four characters of six bits each, and a
/// last group of one or two bytes is padded with `=` to four characters.
pub open spec fn base64_standard(bytes: Seq<u8>) -> Seq<char>
    decreases bytes.len(),
{
    if bytes.len() == 0 {
        Seq::empty()
    } else if bytes.len() == 1 {
        let a = bytes[0] as int;
        seq![b64_digit(a / 4), b64_digit((a % 4) * 16), '=', '=']
    } else if bytes.len() == 2 {
        let a = bytes[0] as int;
        let b = bytes[1] as int;
        seq![b64_digit(a / 4), b64_digit((a % 4) * 16 + b / 16), b64_digit((b % 16) * 4), '=']
    } else {
        let a = bytes[0] as int;
        let b = bytes[1] as int;
        let c = bytes[2] as int;
        seq![b64_digit(a / 4), b64_digit((a % 4) * 16 + b / 16), b64_digit((b % 16) * 4 + c / 64), b64_digit(c % 64)]
            + base64_standard(bytes.subrange(3, bytes.len() as int))
    }
}

/// Calls `base64::engine::general_purpose::STANDARD.encode(bytes)`, the
/// padded standard-alphabet engine; the text is `base64_standard` of the
/// bytes.
#[verifier::external_body]
fn base64_encode(bytes: &[u8]) -> (s: String)
    ensures
        s@ == base64_standard(bytes@),
{
    base64::engine::general_purpose::STANDARD.encode(bytes)
}

/// The `data:` URI embedding a logo in a rendered document; the MIME type
/// defaults to PNG.
pub fn logo_data_uri(bytes: &Vec<u8>, mime: Option<&str>) -> (r: String)
    ensures
        r@ == "data:"@ + (match mime { Some(m) => m@, None => "image/png"@ }) + ";base64,"@
            + base64_standard(bytes@),
{
    let mut r = String::new();
    r.append("data:");
    match mime {
        Some(m) => r.append(m),
        None => r.append("image/png"),
    }
    r.append(";base64,");
    let enc = base64_encode(bytes.as_slice());
    r.append(enc.as_str());
    r
}

/// `prefix` is a leading run of the components of `path`.
pub open spec fn components_start_with(path: Seq<Seq<char>>, prefix: Seq<Seq<char>>) -> bool {
    prefix.len() <= path.len() && forall|i: int| 0 <= i < prefix.len() ==> #[trigger] path[i] == prefix[i]
}

/// The texts of path components.
pub open spec fn component_texts(v: Seq<String>) -> Seq<Seq<char>> {
    v.map_values(|c: String| c@)
}

/// The resolved logo path must lie inside the working folder (component by
/// component, as `Path::starts_with` compares); otherwise the logo is
/// refused, naming the path.
pub fn check_logo_inside(logo: &Vec<String>, folder: &Vec<String>, logo_display: &str) -> (r: Result<(), AppError>)
    ensures
        components_start_with(component_texts(logo@), component_texts(folder@)) ==> r is Ok,
        !components_start_with(component_texts(logo@), component_texts(folder@)) ==> (r matches Err(AppError::Validation { field, message })
            && field@ == "org.logo_path"@ && message@ == "Путь к логотипу вне рабочей папки: "@ + logo_display@),
{
    if components_prefix(logo, folder) {
        return Ok(());
    }
    let mut msg = String::new();
    msg.append("Путь к логотипу вне рабочей папки: ");
    msg.append(logo_display);
    Err(AppError::Validation { field: "org.logo_path".to_owned(), message: msg })
}

fn components_prefix(logo: &Vec<String>, folder: &Vec<String>) -> (b: bool)
    ensures
        b == components_start_with(component_texts(logo@), component_texts(folder@)),
{
    if folder.len() > logo.len() {
        return false;
    }
    let mut i: usize = 0;
    while i < folder.len()
        invariant
            folder.len() <= logo.len(),
            i <= folder.len(),
            forall|k: int| 0 <= k < i ==> #[trigger] component_texts(logo@)[k] == component_texts(folder@)[k],
        decreases folder.len() - i,
    {
        if !crate::text::str_eq(logo[i].as_str(), folder[i].as_str()) {
            assert(component_texts(logo@)[i as int] != component_texts(folder@)[i as int]);
            return false;
        }
        i = i + 1;
    }
    true
}

} // verus!
