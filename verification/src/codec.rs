use vstd::prelude::*;

verus! {

use vstd::string::StringExecFns;

/// The field names a quiz document can carry.  The identifier is kept beside
/// the document by the store, never inside it.
#[derive(Clone, Copy, Debug, PartialEq, Eq, Structural)]
pub enum FieldName {
    Title,
    Tags,
    Body,
    AddedAt,
}

/// The abstract value of a [`Value`].
pub enum ValueV {
    Text(Seq<char>),
    TextList(Seq<Seq<char>>),
    Int(int),
}

/// A field value of a generic stored document: text, a list of texts, or an
/// integer.
#[derive(Debug)]
pub enum Value {
    Text(String),
    TextList(Vec<String>),
    Int(i64),
}

/// The abstract value of a sequence of strings: the sequence of their
/// character sequences.
pub open spec fn strs_view(v: Seq<String>) -> Seq<Seq<char>> {
    v.map_values(|s: String| s@)
}

impl View for Value {
    type V = ValueV;

    open spec fn view(&self) -> ValueV {
        match self {
            Value::Text(s) => ValueV::Text(s@),
            Value::TextList(v) => ValueV::TextList(strs_view(v@)),
            Value::Int(n) => ValueV::Int(*n as int),
        }
    }
}

/// The abstract value of a [`Field`].
pub struct FieldV {
    pub name: FieldName,
    pub value: ValueV,
}

/// One named field of a generic stored document.
#[derive(Debug)]
pub struct Field {
    pub name: FieldName,
    pub value: Value,
}

impl View for Field {
    type V = FieldV;

    open spec fn view(&self) -> FieldV {
        FieldV { name: self.name, value: self.value@ }
    }
}

/// A generic structured document: an ordered sequence of named fields, the
/// shape in which records are handed to and received from the store.
#[derive(Debug)]
pub struct Document {
    pub fields: Vec<Field>,
}

impl View for Document {
    type V = Seq<FieldV>;

    open spec fn view(&self) -> Seq<FieldV> {
        self.fields@.map_values(|f: Field| f@)
    }
}

/// The abstract value of a [`QuizRequest`].
pub struct RequestV {
    pub title: Seq<char>,
    pub tags: Seq<Seq<char>>,
    pub body: Seq<char>,
    pub added_at: int,
}

/// The creatable/mutable projection of a quiz: every field but the
/// identifier, which only the store assigns.
#[derive(Debug)]
pub struct QuizRequest {
    pub title: String,
    pub tags: Vec<String>,
    pub body: String,
    pub added_at: i64,
}

impl View for QuizRequest {
    type V = RequestV;

    open spec fn view(&self) -> RequestV {
        RequestV {
            title: self.title@,
            tags: strs_view(self.tags@),
            body: self.body@,
            added_at: self.added_at as int,
        }
    }
}

/// The abstract value of a [`Quiz`].
pub struct QuizV {
    pub id: Seq<char>,
    pub title: Seq<char>,
    pub tags: Seq<Seq<char>>,
    pub body: Seq<char>,
    pub added_at: int,
}

/// A persisted quiz record: the request fields together with the identifier
/// the store assigned at creation.
#[derive(Debug)]
pub struct Quiz {
    pub id: String,
    pub title: String,
    pub tags: Vec<String>,
    pub body: String,
    pub added_at: i64,
}

impl Quiz {
    /// A copy of the record carrying the same abstract value.
    pub fn duplicate(&self) -> (r: Quiz)
        ensures
            r@ == self@,
    {
        Quiz {
            id: self.id.clone(),
            title: self.title.clone(),
            tags: clone_strings(&self.tags),
            body: self.body.clone(),
            added_at: self.added_at,
        }
    }
}

impl View for Quiz {
    type V = QuizV;

    open spec fn view(&self) -> QuizV {
        QuizV {
            id: self.id@,
            title: self.title@,
            tags: strs_view(self.tags@),
            body: self.body@,
            added_at: self.added_at as int,
        }
    }
}

/// The document form of a request: one field per record field, in a fixed
/// order, with no identifier field.
pub open spec fn doc_of_request(r: RequestV) -> Seq<FieldV> {
    seq![
        FieldV { name: FieldName::Title, value: ValueV::Text(r.title) },
        FieldV { name: FieldName::Tags, value: ValueV::TextList(r.tags) },
        FieldV { name: FieldName::Body, value: ValueV::Text(r.body) },
        FieldV { name: FieldName::AddedAt, value: ValueV::Int(r.added_at) },
    ]
}

/// The value of the first field named `n`, if any.
pub open spec fn first_value(d: Seq<FieldV>, n: FieldName) -> Option<ValueV>
    decreases d.len(),
{
    if d.len() == 0 {
        None
    } else if d[0].name == n {
        Some(d[0].value)
    } else {
        first_value(d.drop_first(), n)
    }
}

/// The quiz record a stored document denotes, given the identifier it is
/// stored under: defined exactly when the document carries a text title, a
/// text-list tag set, a text body and an integer timestamp.
pub open spec fn quiz_of_doc(id: Seq<char>, d: Seq<FieldV>) -> Option<QuizV> {
    match (
        first_value(d, FieldName::Title),
        first_value(d, FieldName::Tags),
        first_value(d, FieldName::Body),
        first_value(d, FieldName::AddedAt),
    ) {
        (
            Some(ValueV::Text(title)),
            Some(ValueV::TextList(tags)),
            Some(ValueV::Text(body)),
            Some(ValueV::Int(at)),
        ) => Some(QuizV { id, title, tags, body, added_at: at }),
        _ => None,
    }
}

/// The record a request denotes once the store has assigned it `id`.
pub open spec fn quiz_of_request(id: Seq<char>, r: RequestV) -> QuizV {
    QuizV { id, title: r.title, tags: r.tags, body: r.body, added_at: r.added_at }
}

/// Round trip: converting a request to its document form and reading the
/// document back yields exactly the request's fields, under whichever
/// identifier the store assigned.
pub proof fn lemma_doc_round_trip(id: Seq<char>, r: RequestV)
    ensures
        quiz_of_doc(id, doc_of_request(r)) == Some(quiz_of_request(id, r)),
{
    reveal_with_fuel(first_value, 5);
    let d = doc_of_request(r);
    let d1 = d.drop_first();
    let d2 = d1.drop_first();
    let d3 = d2.drop_first();
    assert(d1 =~= seq![d[1], d[2], d[3]]);
    assert(d2 =~= seq![d[2], d[3]]);
    assert(d3 =~= seq![d[3]]);
    assert(d3.drop_first() =~= Seq::<FieldV>::empty());
    assert(first_value(d, FieldName::Title) == Some(ValueV::Text(r.title)));
    assert(first_value(d, FieldName::Tags) == Some(ValueV::TextList(r.tags)));
    assert(first_value(d, FieldName::Body) == Some(ValueV::Text(r.body)));
    assert(first_value(d, FieldName::AddedAt) == Some(ValueV::Int(r.added_at)));
}

/// A cloned string vector carries the same abstract value.
fn clone_strings(v: &Vec<String>) -> (r: Vec<String>)
    ensures
        r@ == v@,
{
    let r = v.clone();
    proof {
        assert forall|i: int| 0 <= i < v@.len() implies r@[i] == v@[i] by {
            assert(cloned::<String>(v@[i], r@[i]));
        }
        assert(r@ =~= v@);
    }
    r
}

/// The document form of `entry`: field for field, no identifier field.
pub fn to_document(entry: &QuizRequest) -> (d: Document)
    ensures
        d@ == doc_of_request(entry@),
{
    let mut fields: Vec<Field> = Vec::new();
    fields.push(Field { name: FieldName::Title, value: Value::Text(entry.title.clone()) });
    fields.push(Field { name: FieldName::Tags, value: Value::TextList(clone_strings(&entry.tags)) });
    fields.push(Field { name: FieldName::Body, value: Value::Text(entry.body.clone()) });
    fields.push(Field { name: FieldName::AddedAt, value: Value::Int(entry.added_at) });
    let d = Document { fields };
    proof {
        assert(d@ =~= doc_of_request(entry@));
    }
    d
}

/// The position of the first field of each name, scanned from the back so
/// that an earlier field overrides a later one of the same name.
pub(crate) fn first_positions(doc: &Document) -> (r: (Option<usize>, Option<usize>, Option<
    usize,
>, Option<usize>))
    ensures
        position_matches(doc@, r.0, FieldName::Title),
        position_matches(doc@, r.1, FieldName::Tags),
        position_matches(doc@, r.2, FieldName::Body),
        position_matches(doc@, r.3, FieldName::AddedAt),
{
    let n = doc.fields.len();
    let mut title_at: Option<usize> = None;
    let mut tags_at: Option<usize> = None;
    let mut body_at: Option<usize> = None;
    let mut added_at_at: Option<usize> = None;
    let mut i: usize = n;
    proof {
        assert(doc@.subrange(n as int, n as int) =~= Seq::<FieldV>::empty());
    }
    while i > 0
        invariant
            0 <= i <= n,
            n == doc@.len(),
            suffix_position_matches(doc@, i as int, title_at, FieldName::Title),
            suffix_position_matches(doc@, i as int, tags_at, FieldName::Tags),
            suffix_position_matches(doc@, i as int, body_at, FieldName::Body),
            suffix_position_matches(doc@, i as int, added_at_at, FieldName::AddedAt),
        decreases i,
    {
        i = i - 1;
        proof {
            assert(doc@.subrange(i as int, n as int).drop_first() =~= doc@.subrange(
                i as int + 1,
                n as int,
            ));
        }
        match doc.fields[i].name {
            FieldName::Title => { title_at = Some(i); },
            FieldName::Tags => { tags_at = Some(i); },
            FieldName::Body => { body_at = Some(i); },
            FieldName::AddedAt => { added_at_at = Some(i); },
        }
    }
    proof {
        assert(doc@.subrange(0, n as int) =~= doc@);
    }
    (title_at, tags_at, body_at, added_at_at)
}

/// What `first_positions` guarantees of one name over the whole document:
/// `p` is the position of the first field named `n`, or `None` if there is
/// none.
pub open spec fn position_matches(d: Seq<FieldV>, p: Option<usize>, n: FieldName) -> bool {
    match p {
        None => first_value(d, n) is None,
        Some(j) => 0 <= j < d.len() && d[j as int].name == n && first_value(d, n) == Some(
            d[j as int].value,
        ),
    }
}

/// Over the suffix of `d` from `i`: `p` is the position of the first field
/// named `n`, or `None` if the suffix has none.
pub open spec fn suffix_position_matches(
    d: Seq<FieldV>,
    i: int,
    p: Option<usize>,
    n: FieldName,
) -> bool {
    match p {
        None => first_value(d.subrange(i, d.len() as int), n) is None,
        Some(j) => i <= j < d.len() && d[j as int].name == n && first_value(
            d.subrange(i, d.len() as int),
            n,
        ) == Some(d[j as int].value),
    }
}

/// The quiz record stored document `doc` denotes under identifier `id`:
/// `Some` exactly when the document decodes, and then exactly the record
/// [`quiz_of_doc`] gives.
pub fn quiz_from_document(id: &str, doc: &Document) -> (r: Option<Quiz>)
    ensures
        r is Some <==> quiz_of_doc(id@, doc@) is Some,
        r is Some ==> r->0@ == quiz_of_doc(id@, doc@)->0,
{
    let (title_at, tags_at, body_at, added_at_at) = first_positions(doc);
    let title: String = match title_at {
        Some(j) => match &doc.fields[j].value {
            Value::Text(s) => s.clone(),
            _ => { return None; },
        },
        None => { return None; },
    };
    let tags: Vec<String> = match tags_at {
        Some(j) => match &doc.fields[j].value {
            Value::TextList(v) => clone_strings(v),
            _ => { return None; },
        },
        None => { return None; },
    };
    let body: String = match body_at {
        Some(j) => match &doc.fields[j].value {
            Value::Text(s) => s.clone(),
            _ => { return None; },
        },
        None => { return None; },
    };
    let added_at: i64 = match added_at_at {
        Some(j) => match &doc.fields[j].value {
            Value::Int(n) => *n,
            _ => { return None; },
        },
        None => { return None; },
    };
    Some(Quiz { id: String::from_str(id), title, tags, body, added_at })
}

} // verus!
