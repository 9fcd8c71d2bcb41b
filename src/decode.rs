use vstd::prelude::*;
use vstd::utf8::{decode_utf8, valid_utf8};
use crate::error::ErrorKind;
use crate::text::{
    chars_of, contains, has_prefix, occurs_in, starts_with, trim_text, trimmed,
};

verus! {

/// What `String::from_utf16` makes of a sequence of UTF-16 code units.
pub uninterp spec fn utf16_text(units: Seq<u16>) -> Option<Seq<char>>;

/// Relies on `String::from_utf8`: it succeeds exactly on valid UTF-8 and
/// then holds the decoded characters.
#[verifier::external_body]
fn utf8_string(bytes: &Vec<u8>) -> (r: Option<String>)
    ensures
        r is Some <==> valid_utf8(bytes@),
        r is Some ==> r->0@ == decode_utf8(bytes@),
{
    String::from_utf8(bytes.clone()).ok()
}

/// Relies on `String::from_utf16`, which fails on unpaired surrogates.
#[verifier::external_body]
fn utf16_string(units: &Vec<u16>) -> (r: Option<String>)
    ensures
        match r {
            Some(s) => utf16_text(units@) == Some(s@),
            None => utf16_text(units@) is None,
        },
{
    String::from_utf16(units).ok()
}

/// The bytes read in pairs as little-endian (or big-endian) code units; an
/// odd last byte is left out.
pub open spec fn code_units(b: Seq<u8>, little: bool) -> Seq<u16> {
    Seq::new(
        b.len() / 2,
        |i: int|
            if little {
                (b[2 * i] as int + 256 * b[2 * i + 1] as int) as u16
            } else {
                (256 * b[2 * i] as int + b[2 * i + 1] as int) as u16
            },
    )
}

pub open spec fn starts_with_bytes(b: Seq<u8>, x: u8, y: u8) -> bool {
    b.len() >= 2 && b[0] == x && b[1] == y
}

/// A page that lacks the XML declaration but declares an HTML doctype.
pub open spec fn looks_like_html(t: Seq<char>) -> bool {
    !has_prefix(t, "<?xml"@) && occurs_in(t, "<!DOCTYPE html>"@)
}

/// Accepts decoded text that is XML and not blank.
pub open spec fn checked_text(t: Seq<char>) -> Result<Seq<char>, ErrorKind> {
    if looks_like_html(t) {
        Err(ErrorKind::NotXml)
    } else if trimmed(t).len() == 0 {
        Err(ErrorKind::EmptyFile)
    } else {
        Ok(t)
    }
}

/// The text of a file's bytes: UTF-8 when they are valid UTF-8, else UTF-16
/// as the byte-order mark says.
pub open spec fn resolve(b: Seq<u8>) -> Result<Seq<char>, ErrorKind> {
    if b.len() == 0 {
        Err(ErrorKind::EmptyFile)
    } else if valid_utf8(b) {
        checked_text(decode_utf8(b))
    } else if starts_with_bytes(b, 0xFF, 0xFE) || starts_with_bytes(b, 0xFE, 0xFF) {
        match utf16_text(code_units(b, starts_with_bytes(b, 0xFF, 0xFE))) {
            Some(t) => checked_text(t),
            None => Err(ErrorKind::InvalidEncoding),
        }
    } else {
        Err(ErrorKind::InvalidEncoding)
    }
}

fn units_of(b: &Vec<u8>, little: bool) -> (r: Vec<u16>)
    ensures
        r@ == code_units(b@, little),
{
    let mut out: Vec<u16> = Vec::new();
    let n = b.len() / 2;
    let mut i: usize = 0;
    while i < n
        invariant
            i <= n,
            n == b.len() / 2,
            out@ == code_units(b@, little).take(i as int),
        decreases n - i,
    {
        let lo = if little {
            b[2 * i]
        } else {
            b[2 * i + 1]
        };
        let hi = if little {
            b[2 * i + 1]
        } else {
            b[2 * i]
        };
        let u: u16 = lo as u16 + 256 * (hi as u16);
        out.push(u);
        i = i + 1;
        assert(out@ =~= code_units(b@, little).take(i as int));
    }
    assert(code_units(b@, little).take(n as int) =~= code_units(b@, little));
    out
}

/// Whether the text is empty or all white space.
pub fn is_blank(s: &str) -> (r: bool)
    ensures
        r == (trimmed(s@).len() == 0),
{
    let t = trim_text(s);
    t.is_empty()
}

fn check_text(t: String) -> (r: Result<String, ErrorKind>)
    ensures
        match r {
            Ok(s) => checked_text(t@) == Ok::<Seq<char>, ErrorKind>(s@),
            Err(k) => checked_text(t@) == Err::<Seq<char>, ErrorKind>(k),
        },
{
    let cs = chars_of(t.as_str());
    let decl = chars_of("<?xml");
    let doctype = chars_of("<!DOCTYPE html>");
    if !starts_with(&cs, &decl) && contains(&cs, &doctype) {
        return Err(ErrorKind::NotXml);
    }
    if is_blank(t.as_str()) {
        return Err(ErrorKind::EmptyFile);
    }
    Ok(t)
}

/// Decodes the raw bytes of an XML file (see `resolve`).
pub fn decode_xml(bytes: &Vec<u8>) -> (r: Result<String, ErrorKind>)
    ensures
        match r {
            Ok(s) => resolve(bytes@) == Ok::<Seq<char>, ErrorKind>(s@),
            Err(k) => resolve(bytes@) == Err::<Seq<char>, ErrorKind>(k),
        },
{
    if bytes.len() == 0 {
        return Err(ErrorKind::EmptyFile);
    }
    match utf8_string(bytes) {
        Some(t) => check_text(t),
        None => {
            let le = bytes.len() >= 2 && bytes[0] == 0xFF && bytes[1] == 0xFE;
            let be = bytes.len() >= 2 && bytes[0] == 0xFE && bytes[1] == 0xFF;
            if le || be {
                let units = units_of(bytes, le);
                match utf16_string(&units) {
                    Some(t) => check_text(t),
                    None => Err(ErrorKind::InvalidEncoding),
                }
            } else {
                Err(ErrorKind::InvalidEncoding)
            }
        },
    }
}

} // verus!
