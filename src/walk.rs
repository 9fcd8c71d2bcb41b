use vstd::prelude::*;
use crate::error::ConversionError;
use crate::json::{Json, JsonModel, lemma_array_view, views};
use crate::text::{chars_of, ends_with, has_suffix, texts};

verus! {

/// Whether a file name is one the walk converts: an `.xml` file that is not
/// an organisation file (`-org.xml`).
pub open spec fn activity_file_name(name: Seq<char>) -> bool {
    has_suffix(name, ".xml"@) && !has_suffix(name, "-org.xml"@)
}

pub fn is_activity_file(name: &str) -> (r: bool)
    ensures
        r == activity_file_name(name@),
{
    let n = chars_of(name);
    ends_with(&n, &chars_of(".xml")) && !ends_with(&n, &chars_of("-org.xml"))
}

/// The records and the failures of a walk.
pub struct WalkOutcome {
    pub records: Vec<Json>,
    pub errors: Vec<ConversionError>,
}

/// The records of the successful files, file after file.
pub open spec fn ok_records(s: Seq<Result<Vec<Json>, ConversionError>>) -> Seq<JsonModel>
    decreases s.len(),
{
    if s.len() == 0 {
        Seq::empty()
    } else {
        match s.last() {
            Ok(v) => ok_records(s.drop_last()) + views(v@),
            Err(_) => ok_records(s.drop_last()),
        }
    }
}

/// The failures, file after file.
pub open spec fn failures(s: Seq<Result<Vec<Json>, ConversionError>>) -> Seq<ConversionError>
    decreases s.len(),
{
    if s.len() == 0 {
        Seq::empty()
    } else {
        match s.last() {
            Ok(_) => failures(s.drop_last()),
            Err(e) => failures(s.drop_last()).push(e),
        }
    }
}

pub open spec fn reversed<T>(s: Seq<T>) -> Seq<T> {
    Seq::new(s.len(), |i: int| s[s.len() - 1 - i])
}

/// Folds the outcome of every file into one list of records and one list of
/// failures; one file's failure never hides another file's records.
pub fn merge_outcomes(outcomes: Vec<Result<Vec<Json>, ConversionError>>) -> (r: WalkOutcome)
    ensures
        views(r.records@) == ok_records(outcomes@),
        r.errors@ == failures(outcomes@),
{
    let ghost all = outcomes@;
    let mut rest = outcomes;
    let mut stack: Vec<Result<Vec<Json>, ConversionError>> = Vec::new();
    while rest.len() > 0
        invariant
            rest.len() <= all.len(),
            rest@ == all.take(rest.len() as int),
            stack@ == reversed(all.skip(rest.len() as int)),
        decreases rest.len(),
    {
        let x = rest.pop().unwrap();
        stack.push(x);
        assert(rest@ =~= all.take(rest.len() as int));
        assert(stack@ =~= reversed(all.skip(rest.len() as int)));
    }
    let mut records: Vec<Json> = Vec::new();
    let mut errors: Vec<ConversionError> = Vec::new();
    assert(all.take(0) =~= Seq::<Result<Vec<Json>, ConversionError>>::empty());
    assert(all.skip(0) =~= all);
    while stack.len() > 0
        invariant
            stack.len() <= all.len(),
            stack@ == reversed(all.skip(all.len() - stack.len())),
            views(records@) == ok_records(all.take(all.len() - stack.len())),
            errors@ == failures(all.take(all.len() - stack.len())),
        decreases stack.len(),
    {
        let ghost done = all.len() - stack.len();
        let x = stack.pop().unwrap();
        assert(x == all[done]);
        let ghost t = all.take(done + 1);
        assert(t.drop_last() =~= all.take(done));
        match x {
            Ok(mut v) => {
                let ghost rv = views(records@);
                let ghost vv = views(v@);
                records.append(&mut v);
                assert(views(records@) =~= rv + vv);
            },
            Err(e) => {
                errors.push(e);
            },
        }
        assert(stack@ =~= reversed(all.skip(all.len() - stack.len())));
    }
    assert(all.take(all.len() as int) =~= all);
    WalkOutcome { records, errors }
}

/// What a single-file conversion returns: its one record itself, or all its
/// records as an array.
pub open spec fn document_output(records: Seq<JsonModel>) -> JsonModel {
    if records.len() == 1 {
        records[0]
    } else {
        JsonModel::Array(records)
    }
}

pub fn single_file_output(records: Vec<Json>) -> (r: Json)
    ensures
        r@ == document_output(views(records@)),
{
    let mut records = records;
    if records.len() == 1 {
        records.pop().unwrap()
    } else {
        proof {
            lemma_array_view(records);
        }
        Json::Array(records)
    }
}

/// The fields of a line, as `str::split_whitespace` cuts them.
pub uninterp spec fn whitespace_fields(s: Seq<char>) -> Seq<Seq<char>>;

/// Relies on `str::split_whitespace`: the non-empty runs of the line
/// between white space, in order.
#[verifier::external_body]
fn fields_of(s: &str) -> (r: Vec<String>)
    ensures
        texts(r@) == whitespace_fields(s@),
{
    s.split_whitespace().map(|x| x.to_string()).collect()
}

/// The folder and file that a line of an archive's error list names: its
/// second and third fields, when the line has at least four.
pub open spec fn error_line_entry(line: Seq<char>) -> Option<(Seq<char>, Seq<char>)> {
    let f = whitespace_fields(line);
    if f.len() >= 4 {
        Some((f[1], f[2]))
    } else {
        None
    }
}

pub fn error_entry(line: &str) -> (r: Option<(String, String)>)
    ensures
        match r {
            Some(e) => error_line_entry(line@) == Some((e.0@, e.1@)),
            None => error_line_entry(line@) is None,
        },
{
    let f = fields_of(line);
    if f.len() >= 4 {
        assert(texts(f@)[1] == f@[1]@ && texts(f@)[2] == f@[2]@);
        Some((f[1].clone(), f[2].clone()))
    } else {
        None
    }
}

/// A file name with the `.xml` extension added when it lacks it.
pub open spec fn xml_name(name: Seq<char>) -> Seq<char> {
    if has_suffix(name, ".xml"@) {
        name
    } else {
        name + ".xml"@
    }
}

pub fn xml_file_name(name: &str) -> (r: String)
    ensures
        r@ == xml_name(name@),
{
    let mut out = name.to_owned();
    if !ends_with(&chars_of(name), &chars_of(".xml")) {
        out.append(".xml");
    }
    out
}

} // verus!
