use vstd::prelude::*;
use quickxml_to_serde::{Config, JsonArray, JsonType, xml_string_to_json};
use regex::Regex;
use crate::decode::{decode_xml, resolve};
use crate::error::{ConversionError, ErrorKind, kind_message};
use crate::json::{Json, JsonModel, field, lemma_array_view, views};
use crate::number::index_from;
use crate::project::{filter_activity, project};
use crate::text::{has_prefix, texts};

verus! {

#[verifier::external_type_specification]
#[verifier::external_body]
pub struct ExValue(serde_json::Value);

/// What quickxml_to_serde makes of an XML text: the document as a JSON tree
/// (attributes and child elements side by side, text under `#text`, the
/// elements at `array_paths` always as arrays), or the parser's message.
pub uninterp spec fn xml_tree(text: Seq<char>, array_paths: Seq<Seq<char>>) -> Result<
    JsonModel,
    Seq<char>,
>;

/// Moves serde_json's value tree into the library's `Json`, variant by
/// variant; numbers keep serde_json's decimal text.
#[verifier::external_body]
fn json_of_value(v: serde_json::Value) -> Json {
    match v {
        serde_json::Value::Null => Json::Null,
        serde_json::Value::Bool(b) => Json::Bool(b),
        serde_json::Value::Number(n) => Json::Number(n.to_string()),
        serde_json::Value::String(s) => Json::Str(s),
        serde_json::Value::Array(a) => Json::Array(a.into_iter().map(json_of_value).collect()),
        serde_json::Value::Object(o) => Json::Object(
            o.into_iter().map(|(k, x)| (k, json_of_value(x))).collect(),
        ),
    }
}

/// Relies on `quickxml_to_serde::xml_string_to_json`, with attributes
/// unprefixed and the given element paths forced to arrays.
#[verifier::external_body]
fn map_xml(text: &str, array_paths: &Vec<String>) -> (r: Result<Json, String>)
    ensures
        match r {
            Ok(j) => xml_tree(text@, texts(array_paths@)) == Ok::<JsonModel, Seq<char>>(j@),
            Err(e) => xml_tree(text@, texts(array_paths@)) == Err::<JsonModel, Seq<char>>(e@),
        },
{
    let mut config = Config::new_with_defaults();
    config.xml_attr_prefix = String::new();
    for p in array_paths {
        config = config.add_json_type_override(p.as_str(), JsonArray::Always(JsonType::Infer));
    }
    match xml_string_to_json(text.to_string(), &config) {
        Ok(v) => Ok(json_of_value(v)),
        Err(e) => Err(e.to_string()),
    }
}

/// The length of a `<http://...>` or `<https://...>` token at the start of
/// `s`, up to and including the first `>`; zero when there is none.
pub open spec fn url_token_len(s: Seq<char>) -> int {
    let p: int = if has_prefix(s, "<http://"@) {
        8
    } else if has_prefix(s, "<https://"@) {
        9
    } else {
        0
    };
    if p == 0 {
        0
    } else {
        let j = index_from(s, '>', p);
        if j < s.len() {
            j + 1
        } else {
            0
        }
    }
}

/// The text with every angle-bracketed literal URL taken out, scanning from
/// the left.
pub open spec fn without_url_tokens(s: Seq<char>) -> Seq<char>
    decreases s.len(),
{
    if s.len() == 0 {
        s
    } else {
        let n = url_token_len(s);
        if 0 < n <= s.len() {
            without_url_tokens(s.skip(n))
        } else {
            seq![s[0]] + without_url_tokens(s.skip(1))
        }
    }
}

/// Relies on `regex::Regex::replace_all` with the pattern
/// `<https?://[^>]*>` and an empty replacement.
#[verifier::external_body]
fn strip_url_tokens(input: &str) -> (r: String)
    ensures
        r@ == without_url_tokens(input@),
{
    Regex::new(r"<https?://[^>]*>").unwrap().replace_all(input, "").to_string()
}

/// Takes literal URLs written as `<http...>` out of the text, a known defect
/// of some published files.
pub fn preprocess_xml(input: &str) -> (r: String)
    ensures
        r@ == without_url_tokens(input@),
{
    strip_url_tokens(input)
}

/// One mapping attempt, without the retry.
pub fn try_convert_xml_to_json(xml: &str, array_paths: &Vec<String>) -> (r: Result<Json, String>)
    ensures
        match r {
            Ok(j) => xml_tree(xml@, texts(array_paths@)) == Ok::<JsonModel, Seq<char>>(j@),
            Err(e) => xml_tree(xml@, texts(array_paths@)) == Err::<JsonModel, Seq<char>>(e@),
        },
{
    map_xml(xml, array_paths)
}

/// The JSON tree of an XML text: the direct mapping, else the mapping of the
/// text without literal URLs; when both fail, the first failure's message.
pub open spec fn mapped(text: Seq<char>, array_paths: Seq<Seq<char>>) -> Result<
    JsonModel,
    Seq<char>,
> {
    match xml_tree(text, array_paths) {
        Ok(j) => Ok(j),
        Err(e) => match xml_tree(without_url_tokens(text), array_paths) {
            Ok(j) => Ok(j),
            Err(_) => Err(e),
        },
    }
}

/// Maps an XML text to its JSON tree (see `mapped`).
pub fn convert_xml_to_json(xml: &str, array_paths: &Vec<String>) -> (r: Result<Json, String>)
    ensures
        match r {
            Ok(j) => mapped(xml@, texts(array_paths@)) == Ok::<JsonModel, Seq<char>>(j@),
            Err(e) => mapped(xml@, texts(array_paths@)) == Err::<JsonModel, Seq<char>>(e@),
        },
{
    match try_convert_xml_to_json(xml, array_paths) {
        Ok(j) => Ok(j),
        Err(e) => {
            let cleaned = preprocess_xml(xml);
            match try_convert_xml_to_json(cleaned.as_str(), array_paths) {
                Ok(j) => Ok(j),
                Err(_) => Err(e),
            }
        },
    }
}

/// The activity objects of a document: the elements under
/// `iati-activities` / `iati-activity` (one or many), or the whole document
/// when there is no `iati-activities` wrapper.
pub open spec fn activities_of(doc: JsonModel) -> Seq<JsonModel> {
    match field(doc, "iati-activities"@) {
        Some(w) => match field(w, "iati-activity"@) {
            Some(JsonModel::Array(a)) => a,
            Some(x) => seq![x],
            None => Seq::empty(),
        },
        None => seq![doc],
    }
}

/// Each activity projected.
pub open spec fn projected(s: Seq<JsonModel>) -> Seq<JsonModel> {
    Seq::new(s.len(), |i: int| project(s[i]))
}

/// The records that a document yields, in document order.
pub fn project_document(doc: &Json) -> (r: Vec<Json>)
    ensures
        views(r@) == projected(activities_of(doc@)),
{
    let mut out: Vec<Json> = Vec::new();
    match doc.get("iati-activities") {
        Some(w) => match w.get("iati-activity") {
            Some(Json::Array(a)) => {
                proof {
                    lemma_array_view(*a);
                }
                let ghost acts = views(a@);
                let mut i: usize = 0;
                while i < a.len()
                    invariant
                        i <= a.len(),
                        acts == views(a@),
                        views(out@) == projected(acts.take(i as int)),
                    decreases a.len() - i,
                {
                    assert(acts[i as int] == a@[i as int]@);
                    let ghost before = views(out@);
                    out.push(filter_activity(&a[i]));
                    assert(views(out@) =~= before.push(project(acts[i as int])));
                    i = i + 1;
                    assert(views(out@) =~= projected(acts.take(i as int)));
                }
                assert(acts.take(a.len() as int) =~= acts);
            },
            Some(x) => {
                out.push(filter_activity(x));
                assert(views(out@) =~= projected(seq![x@]));
            },
            None => {
                assert(views(out@) =~= projected(Seq::empty()));
            },
        },
        None => {
            out.push(filter_activity(doc));
            assert(views(out@) =~= projected(seq![doc@]));
        },
    }
    out
}

/// What one file yields: its records, or the kind of failure and its
/// message.
pub open spec fn file_outcome(bytes: Seq<u8>, array_paths: Seq<Seq<char>>) -> Result<
    Seq<JsonModel>,
    (ErrorKind, Seq<char>),
> {
    match resolve(bytes) {
        Err(k) => Err((k, kind_message(k))),
        Ok(t) => match mapped(t, array_paths) {
            Err(e) => Err((ErrorKind::MalformedXml, e)),
            Ok(doc) => Ok(projected(activities_of(doc))),
        },
    }
}

/// Runs one file's bytes through decoding, mapping and projection; a failure
/// names the file.
pub fn convert_file(path: &str, bytes: &Vec<u8>, array_paths: &Vec<String>) -> (r: Result<
    Vec<Json>,
    ConversionError,
>)
    ensures
        match r {
            Ok(v) => file_outcome(bytes@, texts(array_paths@)) == Ok::<
                Seq<JsonModel>,
                (ErrorKind, Seq<char>),
            >(views(v@)),
            Err(e) => e.path@ == path@ && file_outcome(bytes@, texts(array_paths@)) == Err::<
                Seq<JsonModel>,
                (ErrorKind, Seq<char>),
            >((e.kind, e.message@)),
        },
{
    match decode_xml(bytes) {
        Err(k) => Err(ConversionError { path: path.to_owned(), kind: k, message: k.message() }),
        Ok(text) => match convert_xml_to_json(text.as_str(), array_paths) {
            Err(e) => Err(
                ConversionError { path: path.to_owned(), kind: ErrorKind::MalformedXml, message: e },
            ),
            Ok(doc) => Ok(project_document(&doc)),
        },
    }
}

} // verus!
