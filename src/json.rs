use vstd::prelude::*;

verus! {

broadcast use vstd::std_specs::vec::axiom_vec_index_decreases;

/// The mathematical value of a JSON tree: strings as character sequences,
/// objects as ordered lists of key/value entries.
pub enum JsonModel {
    Null,
    Bool(bool),
    Number(Seq<char>),
    Str(Seq<char>),
    Array(Seq<JsonModel>),
    Object(Seq<(Seq<char>, JsonModel)>),
}

/// A dynamically typed JSON value. Numbers keep their decimal text;
/// objects keep their entries in order.
#[derive(Debug, PartialEq)]
pub enum Json {
    Null,
    Bool(bool),
    Number(String),
    Str(String),
    Array(Vec<Json>),
    Object(Vec<(String, Json)>),
}

impl View for Json {
    type V = JsonModel;

    open spec fn view(&self) -> JsonModel {
        model_of(*self)
    }
}

/// The model of a value, built field by field.
pub open spec fn model_of(j: Json) -> JsonModel
    decreases j,
{
    match j {
        Json::Null => JsonModel::Null,
        Json::Bool(b) => JsonModel::Bool(b),
        Json::Number(n) => JsonModel::Number(n@),
        Json::Str(s) => JsonModel::Str(s@),
        Json::Array(v) => JsonModel::Array(
            Seq::new(
                v.len() as nat,
                |i: int|
                    if 0 <= i < v.len() {
                        model_of(v[i])
                    } else {
                        JsonModel::Null
                    },
            ),
        ),
        Json::Object(v) => JsonModel::Object(
            Seq::new(
                v.len() as nat,
                |i: int|
                    if 0 <= i < v.len() {
                        (v[i].0@, model_of(v[i].1))
                    } else {
                        (Seq::empty(), JsonModel::Null)
                    },
            ),
        ),
    }
}

/// The models of a sequence of values.
pub open spec fn views(v: Seq<Json>) -> Seq<JsonModel> {
    Seq::new(v.len(), |i: int| v[i]@)
}

/// The models of a sequence of object entries.
pub open spec fn entry_views(v: Seq<(String, Json)>) -> Seq<(Seq<char>, JsonModel)> {
    Seq::new(v.len(), |i: int| (v[i].0@, v[i].1@))
}

pub proof fn lemma_array_view(v: Vec<Json>)
    ensures
        Json::Array(v)@ == JsonModel::Array(views(v@)),
{
    assert(Json::Array(v)@->Array_0 =~= views(v@));

}

pub proof fn lemma_object_view(v: Vec<(String, Json)>)
    ensures
        Json::Object(v)@ == JsonModel::Object(entry_views(v@)),
{
    assert(Json::Object(v)@->Object_0 =~= entry_views(v@));
}

/// The value of the first entry at or after position `i` whose key is `key`.
pub open spec fn find_key(e: Seq<(Seq<char>, JsonModel)>, key: Seq<char>, i: int) -> Option<
    JsonModel,
>
    decreases e.len() - i,
{
    if i < 0 || i >= e.len() {
        None
    } else if e[i].0 == key {
        Some(e[i].1)
    } else {
        find_key(e, key, i + 1)
    }
}

/// Looks `key` up in an object; any other value has no fields.
pub open spec fn field(j: JsonModel, key: Seq<char>) -> Option<JsonModel> {
    match j {
        JsonModel::Object(e) => find_key(e, key, 0),
        _ => None,
    }
}

/// Looks `key` up in an optional value.
pub open spec fn field_of(j: Option<JsonModel>, key: Seq<char>) -> Option<JsonModel> {
    match j {
        Some(v) => field(v, key),
        None => None,
    }
}

/// A field that may hold one item or a list of them, as a list: an array is
/// its elements, a lone object is a list of one, anything else is empty.
pub open spec fn items_of(j: JsonModel) -> Seq<JsonModel> {
    match j {
        JsonModel::Array(a) => a,
        JsonModel::Object(o) => seq![JsonModel::Object(o)],
        _ => Seq::empty(),
    }
}

/// One entry `(key, value)` when the value is present, none otherwise.
pub open spec fn entry_if(key: Seq<char>, v: Option<JsonModel>) -> Seq<(Seq<char>, JsonModel)> {
    match v {
        Some(x) => seq![(key, x)],
        None => Seq::empty(),
    }
}

impl Json {
    /// A copy of the whole tree.
    pub fn copy(&self) -> (r: Json)
        ensures
            r@ == self@,
        decreases self,
    {
        match self {
            Json::Null => Json::Null,
            Json::Bool(b) => Json::Bool(*b),
            Json::Number(n) => Json::Number(n.clone()),
            Json::Str(s) => Json::Str(s.clone()),
            Json::Array(v) => {
                let mut out: Vec<Json> = Vec::new();
                let mut i: usize = 0;
                while i < v.len()
                    invariant
                        i <= v.len(),
                        out.len() == i,
                        forall|j: int| 0 <= j < i ==> (#[trigger] out@[j])@ == v@[j]@,
                        *self == Json::Array(*v),
                    decreases v.len() - i,
                {
                    proof {
                        let vv = *v;
                        lemma_array_view(vv);
                        assert(views(vv@)[i as int] == vv@[i as int]@);
                    }
                    let x = v[i].copy();
                    out.push(x);
                    i = i + 1;
                }
                proof {
                    lemma_array_view(out);
                    lemma_array_view(*v);
                    assert(views(out@) =~= views(v@));
                }
                Json::Array(out)
            },
            Json::Object(v) => {
                let mut out: Vec<(String, Json)> = Vec::new();
                let mut i: usize = 0;
                while i < v.len()
                    invariant
                        i <= v.len(),
                        out.len() == i,
                        forall|j: int|
                            0 <= j < i ==> (#[trigger] out@[j]).0@ == v@[j].0@ && out@[j].1@
                                == v@[j].1@,
                        *self == Json::Object(*v),
                    decreases v.len() - i,
                {
                    proof {
                        let vv = *v;
                        assert(decreases_to!(vv => vv[i as int]));
                    }
                    proof {
                        let vv = *v;
                        lemma_object_view(vv);
                        assert(entry_views(vv@)[i as int].1 == vv@[i as int].1@);
                    }
                    let x = v[i].1.copy();
                    out.push((v[i].0.clone(), x));
                    i = i + 1;
                }
                proof {
                    lemma_object_view(out);
                    lemma_object_view(*v);
                    assert(entry_views(out@) =~= entry_views(v@));
                }
                Json::Object(out)
            },
        }
    }

    /// The value of the first entry named `key`, when this is an object.
    pub fn get(&self, key: &str) -> (r: Option<&Json>)
        ensures
            match r {
                Some(x) => field(self@, key@) == Some(x@),
                None => field(self@, key@) is None,
            },
    {
        match self {
            Json::Object(v) => {
                let k = key.to_owned();
                let ghost e = entry_views(v@);
                proof {
                    lemma_object_view(*v);
                }
                let mut i: usize = 0;
                while i < v.len()
                    invariant
                        i <= v.len(),
                        e == entry_views(v@),
                        self@ == JsonModel::Object(e),
                        k@ == key@,
                        find_key(e, key@, 0) == find_key(e, key@, i as int),
                    decreases v.len() - i,
                {
                    if v[i].0 == k {
                        assert(e[i as int] == (v@[i as int].0@, v@[i as int].1@));
                        assert(find_key(e, key@, i as int) == Some(e[i as int].1));
                        return Some(&v[i].1);
                    }
                    i = i + 1;
                }
                None
            },
            _ => None,
        }
    }

    /// The elements of an array, a lone object as a list of one, else nothing.
    pub fn items(&self) -> (r: Vec<Json>)
        ensures
            views(r@) == items_of(self@),
    {
        match self {
            Json::Array(v) => {
                let r = copy_all(v);
                proof {
                    lemma_array_view(*v);
                }
                r
            },
            Json::Object(_) => {
                let r = vec![self.copy()];
                assert(views(r@) =~= items_of(self@));
                r
            },
            _ => {
                let r: Vec<Json> = Vec::new();
                assert(views(r@) =~= items_of(self@));
                r
            },
        }
    }
}

/// A copy of every value of `v`, in order.
pub fn copy_all(v: &Vec<Json>) -> (r: Vec<Json>)
    ensures
        views(r@) == views(v@),
{
    let mut out: Vec<Json> = Vec::new();
    let mut i: usize = 0;
    while i < v.len()
        invariant
            i <= v.len(),
            out.len() == i,
            forall|j: int| 0 <= j < i ==> (#[trigger] out@[j])@ == v@[j]@,
        decreases v.len() - i,
    {
        out.push(v[i].copy());
        i = i + 1;
    }
    assert(views(out@) =~= views(v@));
    out
}

} // verus!
