use vstd::prelude::*;

verus! {

/// A JSON number, kept in the three forms that a JSON reader distinguishes.
#[derive(Debug, Clone)]
pub enum JsonNumber {
    /// A non-negative integer that fits in `u64`.
    PosInt(u64),
    /// A negative integer that fits in `i64`.
    NegInt(i64),
    /// Any other number, held as the text that serde_json writes for it: the
    /// shortest decimal text that reads back as the same double.
    Float(String),
}

/// The mathematical value of a JSON number.
pub enum NumberView {
    PosInt(u64),
    NegInt(i64),
    Float(Seq<char>),
}

impl View for JsonNumber {
    type V = NumberView;

    open spec fn view(&self) -> NumberView {
        match self {
            JsonNumber::PosInt(u) => NumberView::PosInt(*u),
            JsonNumber::NegInt(i) => NumberView::NegInt(*i),
            JsonNumber::Float(t) => NumberView::Float(t@),
        }
    }
}

impl JsonNumber {
    /// A copy of this number.
    pub fn duplicate(&self) -> (r: JsonNumber)
        ensures
            r@ == self@,
    {
        match self {
            JsonNumber::PosInt(u) => JsonNumber::PosInt(*u),
            JsonNumber::NegInt(i) => JsonNumber::NegInt(*i),
            JsonNumber::Float(t) => JsonNumber::Float(t.clone()),
        }
    }
}

/// A JSON document.
#[derive(Debug)]
pub enum Json {
    Null,
    Bool(bool),
    Number(JsonNumber),
    String(String),
    Array(Vec<Json>),
    Object(Vec<(String, Json)>),
}

/// The mathematical value of a JSON document.
pub enum JsonValue {
    Null,
    Bool(bool),
    Number(NumberView),
    Str(Seq<char>),
    Array(Seq<JsonValue>),
    Object(Seq<(Seq<char>, JsonValue)>),
}

pub open spec fn json_view(j: Json) -> JsonValue
    decreases j,
{
    match j {
        Json::Null => JsonValue::Null,
        Json::Bool(b) => JsonValue::Bool(b),
        Json::Number(n) => JsonValue::Number(n@),
        Json::String(s) => JsonValue::Str(s@),
        Json::Array(v) => JsonValue::Array(
            Seq::new(v.len() as nat, |i: int| if 0 <= i < v.len() { json_view(v@[i]) } else { JsonValue::Null }),
        ),
        Json::Object(v) => JsonValue::Object(
            Seq::new(v.len() as nat, |i: int| if 0 <= i < v.len() { (v@[i].0@, json_view(v@[i].1)) } else { (Seq::empty(), JsonValue::Null) }),
        ),
    }
}

impl View for Json {
    type V = JsonValue;

    open spec fn view(&self) -> JsonValue {
        json_view(*self)
    }
}

/// The value of the first member named `key`, or `Null` when there is none.
pub open spec fn member(entries: Seq<(Seq<char>, JsonValue)>, key: Seq<char>) -> JsonValue
    decreases entries.len(),
{
    if entries.len() == 0 {
        JsonValue::Null
    } else if entries[0].0 == key {
        entries[0].1
    } else {
        member(entries.drop_first(), key)
    }
}

/// The views of the keys of a path.
pub open spec fn path_view(path: Seq<&str>) -> Seq<Seq<char>> {
    path.map_values(|k: &str| k@)
}

impl JsonValue {
    /// What indexing by `key` gives: the member of an object, `Null` for anything else.
    pub open spec fn field(self, key: Seq<char>) -> JsonValue {
        match self {
            JsonValue::Object(entries) => member(entries, key),
            _ => JsonValue::Null,
        }
    }

    /// What indexing by each key of `path` in turn gives.
    pub open spec fn at_path(self, path: Seq<Seq<char>>) -> JsonValue
        decreases path.len(),
    {
        if path.len() == 0 {
            self
        } else {
            self.field(path[0]).at_path(path.drop_first())
        }
    }

    pub open spec fn as_str(self) -> Option<Seq<char>> {
        match self {
            JsonValue::Str(s) => Some(s),
            _ => None,
        }
    }

    pub open spec fn as_u64(self) -> Option<u64> {
        match self {
            JsonValue::Number(NumberView::PosInt(n)) => Some(n),
            _ => None,
        }
    }

    pub open spec fn as_bool(self) -> Option<bool> {
        match self {
            JsonValue::Bool(b) => Some(b),
            _ => None,
        }
    }

    /// Whether this is a string equal to `text`.
    pub open spec fn is_text(self, text: Seq<char>) -> bool {
        self == JsonValue::Str(text)
    }
}

/// The first member with the key wins.
pub proof fn lemma_member_first(entries: Seq<(Seq<char>, JsonValue)>, key: Seq<char>, i: int)
    requires
        0 <= i < entries.len(),
        entries[i].0 == key,
        forall|j: int| 0 <= j < i ==> entries[j].0 != key,
    ensures
        member(entries, key) == entries[i].1,
    decreases i,
{
    if i > 0 {
        lemma_member_first(entries.drop_first(), key, i - 1);
    }
}

/// Without a member of that name, the lookup gives `Null`.
pub proof fn lemma_member_absent(entries: Seq<(Seq<char>, JsonValue)>, key: Seq<char>)
    requires
        forall|j: int| 0 <= j < entries.len() ==> entries[j].0 != key,
    ensures
        member(entries, key) == JsonValue::Null,
    decreases entries.len(),
{
    if entries.len() > 0 {
        lemma_member_absent(entries.drop_first(), key);
    }
}

/// Indexing `Null` by any path gives `Null`.
pub proof fn lemma_null_path(path: Seq<Seq<char>>)
    ensures
        JsonValue::Null.at_path(path) == JsonValue::Null,
    decreases path.len(),
{
    if path.len() > 0 {
        lemma_null_path(path.drop_first());
    }
}

/// Whether two string slices hold the same text.
pub fn same_text(a: &str, b: &str) -> (r: bool)
    ensures
        r == (a@ == b@),
{
    let x = a.to_owned();
    let y = b.to_owned();
    x == y
}

impl Json {
    /// The member named `key` of an object (the first, where several have it).
    /// `None` where indexing by `key` gives `Null`: a missing member, or a value that is no object.
    pub fn get(&self, key: &str) -> (r: Option<&Json>)
        ensures
            match r {
                Some(v) => v@ == self@.field(key@),
                None => self@.field(key@) == JsonValue::Null,
            },
    {
        match self {
            Json::Object(entries) => {
                let ghost es = self@->Object_0;
                let n = entries.len();
                let mut i: usize = 0;
                while i < n
                    invariant
                        n == entries.len(),
                        es.len() == n,
                        self@ == JsonValue::Object(es),
                        i <= n,
                        forall|j: int| 0 <= j < n ==> #[trigger] es[j] == (entries@[j].0@, entries@[j].1@),
                        forall|j: int| 0 <= j < i ==> (#[trigger] es[j]).0 != key@,
                    decreases n - i,
                {
                    if same_text(entries[i].0.as_str(), key) {
                        proof {
                            assert(es[i as int] == (entries@[i as int].0@, entries@[i as int].1@));
                            lemma_member_first(es, key@, i as int);
                            assert(self@ == JsonValue::Object(es));
                            assert(self@.field(key@) == member(es, key@));
                        }
                        return Some(&entries[i].1);
                    }
                    i = i + 1;
                }
                proof {
                    lemma_member_absent(es, key@);
                }
                None
            },
            _ => None,
        }
    }

    /// A copy of the value that indexing by `key` gives.
    pub fn field_value(&self, key: &str) -> (r: Json)
        ensures
            r@ == self@.field(key@),
    {
        match self.get(key) {
            Some(v) => v.deep_clone(),
            None => Json::Null,
        }
    }

    /// A copy of this document.
    pub fn deep_clone(&self) -> (r: Json)
        ensures
            r@ == self@,
        decreases self,
    {
        match self {
            Json::Null => Json::Null,
            Json::Bool(b) => Json::Bool(*b),
            Json::Number(n) => Json::Number(n.duplicate()),
            Json::String(s) => Json::String(s.clone()),
            Json::Array(items) => {
                let mut out: Vec<Json> = Vec::new();
                let n = items.len();
                for i in 0..n
                    invariant
                        n == items.len(),
                        *self == Json::Array(*items),
                        out.len() == i,
                        forall|j: int| 0 <= j < i ==> (#[trigger] out@[j])@ == items@[j]@,
                {
                    proof {
                        assert(decreases_to!(*self => self->Array_0));
                        assert(decreases_to!(*items => items@));
                        assert(decreases_to!(items@ => items@[i as int]));
                    }
                    out.push(items[i].deep_clone());
                }
                let r = Json::Array(out);
                assert(r@->Array_0 =~= self@->Array_0);
                r
            },
            Json::Object(entries) => {
                let mut out: Vec<(String, Json)> = Vec::new();
                let n = entries.len();
                for i in 0..n
                    invariant
                        n == entries.len(),
                        *self == Json::Object(*entries),
                        out.len() == i,
                        forall|j: int|
                            0 <= j < i ==> (#[trigger] out@[j]).0@ == entries@[j].0@ && out@[j].1@
                                == entries@[j].1@,
                {
                    proof {
                        assert(decreases_to!(*self => self->Object_0));
                        assert(decreases_to!(*entries => entries@));
                        assert(decreases_to!(entries@ => entries@[i as int]));
                        assert(decreases_to!(entries@[i as int] => entries@[i as int].1));
                    }
                    let v = entries[i].1.deep_clone();
                    out.push((entries[i].0.clone(), v));
                }
                let r = Json::Object(out);
                assert(r@->Object_0 =~= self@->Object_0);
                r
            },
        }
    }

    /// What indexing by each key of `path` in turn gives, copied out.
    pub fn at_path(&self, path: &[&str]) -> (r: Json)
        ensures
            r@ == self@.at_path(path_view(path@)),
    {
        let ghost full = path_view(path@);
        let mut cur: &Json = self;
        let n = path.len();
        let mut i: usize = 0;
        assert(full.skip(0) =~= full);
        while i < n
            invariant
                n == path@.len(),
                full == path_view(path@),
                i <= n,
                self@.at_path(full) == cur@.at_path(full.skip(i as int)),
            decreases n - i,
        {
            assert(full.skip(i as int).drop_first() =~= full.skip(i + 1));
            assert(full.skip(i as int)[0] == path@[i as int]@);
            match cur.get(path[i]) {
                Some(v) => {
                    cur = v;
                },
                None => {
                    proof {
                        lemma_null_path(full.skip(i + 1));
                    }
                    return Json::Null;
                },
            }
            i = i + 1;
        }
        assert(full.skip(n as int).len() == 0);
        cur.deep_clone()
    }

    pub fn as_str(&self) -> (r: Option<&str>)
        ensures
            match r {
                Some(s) => self@.as_str() == Some(s@),
                None => self@.as_str() is None,
            },
    {
        match self {
            Json::String(s) => Some(s.as_str()),
            _ => None,
        }
    }

    pub fn as_u64(&self) -> (r: Option<u64>)
        ensures
            r == self@.as_u64(),
    {
        match self {
            Json::Number(JsonNumber::PosInt(n)) => Some(*n),
            _ => None,
        }
    }

    pub fn as_bool(&self) -> (r: Option<bool>)
        ensures
            r == self@.as_bool(),
    {
        match self {
            Json::Bool(b) => Some(*b),
            _ => None,
        }
    }

    pub fn as_array(&self) -> (r: Option<&Vec<Json>>)
        ensures
            match r {
                Some(items) => self@ matches JsonValue::Array(vs) && vs.len() == items.len()
                    && forall|i: int| 0 <= i < items.len() ==> #[trigger] vs[i] == items@[i]@,
                None => !(self@ is Array),
            },
    {
        match self {
            Json::Array(items) => Some(items),
            _ => None,
        }
    }

    pub fn is_null(&self) -> (r: bool)
        ensures
            r == (self@ == JsonValue::Null),
    {
        match self {
            Json::Null => true,
            _ => false,
        }
    }

    pub fn is_string(&self) -> (r: bool)
        ensures
            r == (self@ is Str),
    {
        match self {
            Json::String(_) => true,
            _ => false,
        }
    }

    pub fn is_array(&self) -> (r: bool)
        ensures
            r == (self@ is Array),
    {
        match self {
            Json::Array(_) => true,
            _ => false,
        }
    }

    /// Whether this is a string equal to `text`.
    pub fn is_text(&self, text: &str) -> (r: bool)
        ensures
            r == self@.is_text(text@),
    {
        match self {
            Json::String(s) => same_text(s.as_str(), text),
            _ => false,
        }
    }
}

} // verus!
