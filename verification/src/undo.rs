//! The undo record: what an activation changed, so that it can be reversed.
//! It travels in the environment as `<hash>:<json>`.

use crate::digits::parse_hex16;
use crate::features::optional_text;
use crate::hash::hash_of_text;
use crate::json::{
    find_member, items_view, json_document, json_string, member, members_view, parse_json,
    quote_json, Json, JsonView,
};
use crate::text::{
    chars_of, first_index, join, join_with, lemma_first_index_is, push_all, push_text, string_of,
    string_texts, texts,
};
use vstd::prelude::*;

verus! {

/// One variable that was changed as a whole.
#[derive(Debug, Default, PartialEq, Eq)]
pub struct Scalar {
    pub name: String,
    pub original: Option<String>,
    pub current: Option<String>,
    pub no_clobber: bool,
}

/// One variable that was changed as a colon-separated list.
#[derive(Debug, Default, PartialEq, Eq)]
pub struct List {
    pub name: String,
    pub additions: Vec<String>,
    pub deletions: Vec<String>,
}

/// The undo record.
#[derive(Debug, Default, PartialEq, Eq)]
pub struct Data {
    pub scalars: Vec<Scalar>,
    pub lists: Vec<List>,
}

/// A scalar as plain values.
pub ghost struct ScalarView {
    pub name: Seq<char>,
    pub original: Option<Seq<char>>,
    pub current: Option<Seq<char>>,
    pub no_clobber: bool,
}

/// A list as plain values.
pub ghost struct ListView {
    pub name: Seq<char>,
    pub additions: Seq<Seq<char>>,
    pub deletions: Seq<Seq<char>>,
}

/// An undo record as plain values.
pub ghost struct DataView {
    pub scalars: Seq<ScalarView>,
    pub lists: Seq<ListView>,
}

impl View for Scalar {
    type V = ScalarView;

    open spec fn view(&self) -> ScalarView {
        ScalarView {
            name: self.name@,
            original: optional_text(self.original),
            current: optional_text(self.current),
            no_clobber: self.no_clobber,
        }
    }
}

impl View for List {
    type V = ListView;

    open spec fn view(&self) -> ListView {
        ListView {
            name: self.name@,
            additions: string_texts(self.additions@),
            deletions: string_texts(self.deletions@),
        }
    }
}

impl View for Data {
    type V = DataView;

    open spec fn view(&self) -> DataView {
        DataView {
            scalars: self.scalars@.map_values(|s: Scalar| s@),
            lists: self.lists@.map_values(|l: List| l@),
        }
    }
}

/// Why a text is no undo record.
#[derive(Debug, PartialEq, Eq)]
pub enum MalformedUndo {
    /// The part before the colon is neither empty nor sixteen hexadecimal digits.
    Hash,
    /// The part after the colon is no JSON document; the reader's message.
    Json(String),
    /// The JSON document does not have the shape of a record.
    Schema,
}

/// Why a text is no undo record, as plain values.
pub ghost enum MalformedUndoView {
    Hash,
    Json(Seq<char>),
    Schema,
}

impl View for MalformedUndo {
    type V = MalformedUndoView;

    open spec fn view(&self) -> MalformedUndoView {
        match self {
            MalformedUndo::Hash => MalformedUndoView::Hash,
            MalformedUndo::Json(message) => MalformedUndoView::Json(message@),
            MalformedUndo::Schema => MalformedUndoView::Schema,
        }
    }
}

// ---------------------------------------------------------------------
// Reading
// ---------------------------------------------------------------------
/// A text member: absent it is empty, present it must be a string.
pub open spec fn text_field(entries: Seq<(Seq<char>, JsonView)>, key: Seq<char>) -> Option<
    Seq<char>,
> {
    match member(entries, key) {
        None => Some(Seq::empty()),
        Some(JsonView::Text(s)) => Some(s),
        Some(_) => None,
    }
}

/// An optional text member: absent or `null` it is no value, otherwise it
/// must be a string.
pub open spec fn optional_text_field(entries: Seq<(Seq<char>, JsonView)>, key: Seq<char>) -> Option<
    Option<Seq<char>>,
> {
    match member(entries, key) {
        None => Some(None),
        Some(JsonView::Null) => Some(None),
        Some(JsonView::Text(s)) => Some(Some(s)),
        Some(_) => None,
    }
}

/// A flag member: absent it is false, present it must be a boolean.
pub open spec fn flag_field(entries: Seq<(Seq<char>, JsonView)>, key: Seq<char>) -> Option<bool> {
    match member(entries, key) {
        None => Some(false),
        Some(JsonView::Bool(b)) => Some(b),
        Some(_) => None,
    }
}

/// The text of a JSON string.
pub open spec fn text_of(j: JsonView) -> Option<Seq<char>> {
    match j {
        JsonView::Text(s) => Some(s),
        _ => None,
    }
}

/// The texts of an array of JSON strings.
pub open spec fn texts_of(items: Seq<JsonView>) -> Option<Seq<Seq<char>>> {
    if forall|i: int| 0 <= i < items.len() ==> text_of(#[trigger] items[i]) is Some {
        Some(Seq::new(items.len(), |i: int| text_of(items[i]).unwrap()))
    } else {
        None
    }
}

/// A member that lists texts: absent it is empty, present it must be an
/// array of strings.
pub open spec fn text_list_field(entries: Seq<(Seq<char>, JsonView)>, key: Seq<char>) -> Option<
    Seq<Seq<char>>,
> {
    match member(entries, key) {
        None => Some(Seq::empty()),
        Some(JsonView::Array(items)) => texts_of(items),
        Some(_) => None,
    }
}

/// The scalar that a JSON value describes: an object whose members `name`,
/// `original`, `current` and `no_clobber`, as far as it has them, are of
/// the right kind. Other members are passed over.
pub open spec fn scalar_of(j: JsonView) -> Option<ScalarView> {
    match j {
        JsonView::Object(e) => {
            let name = text_field(e, "name"@);
            let original = optional_text_field(e, "original"@);
            let current = optional_text_field(e, "current"@);
            let no_clobber = flag_field(e, "no_clobber"@);
            if name is Some && original is Some && current is Some && no_clobber is Some {
                Some(
                    ScalarView {
                        name: name.unwrap(),
                        original: original.unwrap(),
                        current: current.unwrap(),
                        no_clobber: no_clobber.unwrap(),
                    },
                )
            } else {
                None
            }
        },
        _ => None,
    }
}

/// The list that a JSON value describes: an object whose members `name`,
/// `additions` and `deletions`, as far as it has them, are of the right kind.
pub open spec fn list_of(j: JsonView) -> Option<ListView> {
    match j {
        JsonView::Object(e) => {
            let name = text_field(e, "name"@);
            let additions = text_list_field(e, "additions"@);
            let deletions = text_list_field(e, "deletions"@);
            if name is Some && additions is Some && deletions is Some {
                Some(
                    ListView {
                        name: name.unwrap(),
                        additions: additions.unwrap(),
                        deletions: deletions.unwrap(),
                    },
                )
            } else {
                None
            }
        },
        _ => None,
    }
}

/// The scalars that an array of JSON values describes.
pub open spec fn scalars_of(items: Seq<JsonView>) -> Option<Seq<ScalarView>> {
    if forall|i: int| 0 <= i < items.len() ==> scalar_of(#[trigger] items[i]) is Some {
        Some(Seq::new(items.len(), |i: int| scalar_of(items[i]).unwrap()))
    } else {
        None
    }
}

/// The lists that an array of JSON values describes.
pub open spec fn lists_of(items: Seq<JsonView>) -> Option<Seq<ListView>> {
    if forall|i: int| 0 <= i < items.len() ==> list_of(#[trigger] items[i]) is Some {
        Some(Seq::new(items.len(), |i: int| list_of(items[i]).unwrap()))
    } else {
        None
    }
}

/// The member `scalars`: absent it is empty, present it must be an array
/// of scalars.
pub open spec fn scalars_field(entries: Seq<(Seq<char>, JsonView)>) -> Option<Seq<ScalarView>> {
    match member(entries, "scalars"@) {
        None => Some(Seq::empty()),
        Some(JsonView::Array(items)) => scalars_of(items),
        Some(_) => None,
    }
}

/// The member `lists`: absent it is empty, present it must be an array of
/// lists.
pub open spec fn lists_field(entries: Seq<(Seq<char>, JsonView)>) -> Option<Seq<ListView>> {
    match member(entries, "lists"@) {
        None => Some(Seq::empty()),
        Some(JsonView::Array(items)) => lists_of(items),
        Some(_) => None,
    }
}

/// The record that a JSON document describes: an object whose members
/// `scalars` and `lists`, as far as it has them, are arrays of scalars and
/// of lists. Absent members are empty, and other members are passed over.
pub open spec fn record_of(j: JsonView) -> Option<DataView> {
    match j {
        JsonView::Object(e) => {
            let scalars = scalars_field(e);
            let lists = lists_field(e);
            if scalars is Some && lists is Some {
                Some(DataView { scalars: scalars.unwrap(), lists: lists.unwrap() })
            } else {
                None
            }
        },
        _ => None,
    }
}

/// Reads a text member.
fn read_text(entries: &Vec<(String, Json)>, key: &str) -> (r: Option<String>)
    ensures
        match r {
            Some(s) => text_field(members_view(entries@), key@) == Some(s@),
            None => text_field(members_view(entries@), key@) is None,
        },
{
    match find_member(entries, key) {
        None => Some(String::new()),
        Some(Json::Text(s)) => Some(s.clone()),
        Some(_) => None,
    }
}

/// Reads an optional text member.
fn read_optional_text(entries: &Vec<(String, Json)>, key: &str) -> (r: Option<Option<String>>)
    ensures
        match r {
            Some(v) => optional_text_field(members_view(entries@), key@) == Some(optional_text(v)),
            None => optional_text_field(members_view(entries@), key@) is None,
        },
{
    match find_member(entries, key) {
        None => Some(None),
        Some(Json::Null) => Some(None),
        Some(Json::Text(s)) => Some(Some(s.clone())),
        Some(_) => None,
    }
}

/// Reads a flag member.
fn read_flag(entries: &Vec<(String, Json)>, key: &str) -> (r: Option<bool>)
    ensures
        r == flag_field(members_view(entries@), key@),
{
    match find_member(entries, key) {
        None => Some(false),
        Some(Json::Bool(b)) => Some(*b),
        Some(_) => None,
    }
}

/// Reads an array of strings.
fn read_texts(items: &Vec<Json>) -> (r: Option<Vec<String>>)
    ensures
        match r {
            Some(v) => texts_of(items_view(items@)) == Some(string_texts(v@)),
            None => texts_of(items_view(items@)) is None,
        },
{
    let mut out: Vec<String> = Vec::new();
    let mut i: usize = 0;
    while i < items.len()
        invariant
            i <= items.len(),
            out@.len() == i,
            forall|k: int| 0 <= k < i ==> text_of(#[trigger] items_view(items@)[k]) == Some(out@[k]@),
        decreases items.len() - i,
    {
        match &items[i] {
            Json::Text(s) => {
                out.push(s.clone());
            },
            _ => {
                assert(text_of(items_view(items@)[i as int]) is None);
                return None;
            },
        }
        i = i + 1;
    }
    assert(texts_of(items_view(items@)).unwrap() =~= string_texts(out@));
    Some(out)
}

/// Reads a member that lists texts.
fn read_text_list(entries: &Vec<(String, Json)>, key: &str) -> (r: Option<Vec<String>>)
    ensures
        match r {
            Some(v) => text_list_field(members_view(entries@), key@) == Some(string_texts(v@)),
            None => text_list_field(members_view(entries@), key@) is None,
        },
{
    match find_member(entries, key) {
        None => {
            let v: Vec<String> = Vec::new();
            assert(string_texts(v@) =~= Seq::<Seq<char>>::empty());
            Some(v)
        },
        Some(Json::Array(items)) => read_texts(items),
        Some(_) => None,
    }
}

impl Scalar {
    /// The scalar that a JSON value describes, where it describes one.
    pub fn from_json(j: &Json) -> (r: Option<Scalar>)
        ensures
            match r {
                Some(s) => scalar_of(j@) == Some(s@),
                None => scalar_of(j@) is None,
            },
    {
        match j {
            Json::Object(e) => {
                let name = read_text(e, "name");
                let original = read_optional_text(e, "original");
                let current = read_optional_text(e, "current");
                let no_clobber = read_flag(e, "no_clobber");
                match (name, original, current, no_clobber) {
                    (Some(name), Some(original), Some(current), Some(no_clobber)) => Some(
                        Scalar { name, original, current, no_clobber },
                    ),
                    _ => None,
                }
            },
            _ => None,
        }
    }
}

impl List {
    /// The list that a JSON value describes, where it describes one.
    pub fn from_json(j: &Json) -> (r: Option<List>)
        ensures
            match r {
                Some(l) => list_of(j@) == Some(l@),
                None => list_of(j@) is None,
            },
    {
        match j {
            Json::Object(e) => {
                let name = read_text(e, "name");
                let additions = read_text_list(e, "additions");
                let deletions = read_text_list(e, "deletions");
                match (name, additions, deletions) {
                    (Some(name), Some(additions), Some(deletions)) => Some(
                        List { name, additions, deletions },
                    ),
                    _ => None,
                }
            },
            _ => None,
        }
    }
}

/// Reads the member `scalars`.
fn read_scalars(entries: &Vec<(String, Json)>) -> (r: Option<Vec<Scalar>>)
    ensures
        match r {
            Some(v) => scalars_field(members_view(entries@)) == Some(v@.map_values(|s: Scalar| s@)),
            None => scalars_field(members_view(entries@)) is None,
        },
{
    match find_member(entries, "scalars") {
        None => {
            let v: Vec<Scalar> = Vec::new();
            assert(v@.map_values(|s: Scalar| s@) =~= Seq::<ScalarView>::empty());
            Some(v)
        },
        Some(Json::Array(items)) => {
            let mut out: Vec<Scalar> = Vec::new();
            let mut i: usize = 0;
            while i < items.len()
                invariant
                    i <= items.len(),
                    out@.len() == i,
                    forall|k: int|
                        0 <= k < i ==> scalar_of(#[trigger] items_view(items@)[k]) == Some(out@[k]@),
                    member(members_view(entries@), "scalars"@) == Some(JsonView::Array(items_view(items@))),
                decreases items.len() - i,
            {
                match Scalar::from_json(&items[i]) {
                    Some(s) => {
                        out.push(s);
                    },
                    None => {
                        assert(scalar_of(items_view(items@)[i as int]) is None);
                        return None;
                    },
                }
                i = i + 1;
            }
            assert(scalars_of(items_view(items@)).unwrap() =~= out@.map_values(|s: Scalar| s@));
            Some(out)
        },
        Some(_) => None,
    }
}

/// Reads the member `lists`.
fn read_lists(entries: &Vec<(String, Json)>) -> (r: Option<Vec<List>>)
    ensures
        match r {
            Some(v) => lists_field(members_view(entries@)) == Some(v@.map_values(|l: List| l@)),
            None => lists_field(members_view(entries@)) is None,
        },
{
    match find_member(entries, "lists") {
        None => {
            let v: Vec<List> = Vec::new();
            assert(v@.map_values(|l: List| l@) =~= Seq::<ListView>::empty());
            Some(v)
        },
        Some(Json::Array(items)) => {
            let mut out: Vec<List> = Vec::new();
            let mut i: usize = 0;
            while i < items.len()
                invariant
                    i <= items.len(),
                    out@.len() == i,
                    forall|k: int|
                        0 <= k < i ==> list_of(#[trigger] items_view(items@)[k]) == Some(out@[k]@),
                    member(members_view(entries@), "lists"@) == Some(JsonView::Array(items_view(items@))),
                decreases items.len() - i,
            {
                match List::from_json(&items[i]) {
                    Some(l) => {
                        out.push(l);
                    },
                    None => {
                        assert(list_of(items_view(items@)[i as int]) is None);
                        return None;
                    },
                }
                i = i + 1;
            }
            assert(lists_of(items_view(items@)).unwrap() =~= out@.map_values(|l: List| l@));
            Some(out)
        },
        Some(_) => None,
    }
}

// ---------------------------------------------------------------------
// Writing
// ---------------------------------------------------------------------
/// The JSON string literal for a text.
pub open spec fn quoted(s: Seq<char>) -> Seq<char> {
    json_string(s)
}

/// An optional text as JSON: its string literal, or `null`.
pub open spec fn optional_json(v: Option<Seq<char>>) -> Seq<char> {
    match v {
        Some(s) => quoted(s),
        None => "null"@,
    }
}

/// A flag as JSON.
pub open spec fn flag_json(b: bool) -> Seq<char> {
    if b {
        "true"@
    } else {
        "false"@
    }
}

/// A JSON array of items that are already written.
pub open spec fn array_json(items: Seq<Seq<char>>) -> Seq<char> {
    "["@ + join_with(items, ',') + "]"@
}

/// A scalar as compact JSON, its members in the order of the data model.
pub open spec fn scalar_json(s: ScalarView) -> Seq<char> {
    "{\"name\":"@ + quoted(s.name) + ",\"original\":"@ + optional_json(s.original)
        + ",\"current\":"@ + optional_json(s.current) + ",\"no_clobber\":"@ + flag_json(
        s.no_clobber,
    ) + "}"@
}

/// A list as compact JSON, its members in the order of the data model.
pub open spec fn list_json(l: ListView) -> Seq<char> {
    "{\"name\":"@ + quoted(l.name) + ",\"additions\":"@ + array_json(
        l.additions.map_values(|s: Seq<char>| quoted(s)),
    ) + ",\"deletions\":"@ + array_json(l.deletions.map_values(|s: Seq<char>| quoted(s))) + "}"@
}

/// The record as compact JSON: the scalars, then the lists, each with its
/// members in the order of the data model.
pub open spec fn data_json(d: DataView) -> Seq<char> {
    "{\"scalars\":"@ + array_json(d.scalars.map_values(|s: ScalarView| scalar_json(s)))
        + ",\"lists\":"@ + array_json(d.lists.map_values(|l: ListView| list_json(l))) + "}"@
}

/// Appends an optional text as JSON.
fn write_optional(out: &mut Vec<char>, v: &Option<String>)
    ensures
        final(out)@ == old(out)@ + optional_json(optional_text(*v)),
{
    match v {
        Some(s) => {
            push_text(out, quote_json(s.as_str()).as_str());
        },
        None => {
            push_text(out, "null");
        },
    }
}

/// Appends a text as a JSON string literal.
fn write_quoted(out: &mut Vec<char>, s: &str)
    ensures
        final(out)@ == old(out)@ + quoted(s@),
{
    push_text(out, quote_json(s).as_str());
}

/// Appends a JSON array of items that are already written.
fn write_array(out: &mut Vec<char>, items: &Vec<Vec<char>>)
    ensures
        final(out)@ == old(out)@ + array_json(texts(items@)),
{
    let ghost before = out@;
    push_text(out, "[");
    let inner = join(items, ',');
    push_all(out, &inner);
    push_text(out, "]");
    assert(out@ =~= before + array_json(texts(items@)));
}

/// Appends texts as a JSON array of strings.
fn write_texts(out: &mut Vec<char>, items: &Vec<String>)
    ensures
        final(out)@ == old(out)@ + array_json(
            string_texts(items@).map_values(|s: Seq<char>| quoted(s)),
        ),
{
    let mut pieces: Vec<Vec<char>> = Vec::new();
    let mut i: usize = 0;
    while i < items.len()
        invariant
            i <= items.len(),
            pieces@.len() == i,
            forall|k: int| 0 <= k < i ==> (#[trigger] pieces@[k])@ == quoted(items@[k]@),
        decreases items.len() - i,
    {
        let mut piece: Vec<char> = Vec::new();
        write_quoted(&mut piece, items[i].as_str());
        pieces.push(piece);
        i = i + 1;
    }
    assert(texts(pieces@) =~= string_texts(items@).map_values(|s: Seq<char>| quoted(s)));
    write_array(out, &pieces);
}

impl Scalar {
    /// Appends the scalar as compact JSON.
    fn write_json(&self, out: &mut Vec<char>)
        ensures
            final(out)@ == old(out)@ + scalar_json(self@),
    {
        let ghost before = out@;
        push_text(out, "{\"name\":");
        write_quoted(out, self.name.as_str());
        push_text(out, ",\"original\":");
        write_optional(out, &self.original);
        push_text(out, ",\"current\":");
        write_optional(out, &self.current);
        push_text(out, ",\"no_clobber\":");
        if self.no_clobber {
            push_text(out, "true");
        } else {
            push_text(out, "false");
        }
        push_text(out, "}");
        assert(out@ =~= before + scalar_json(self@));
    }
}

impl List {
    /// Appends the list as compact JSON.
    fn write_json(&self, out: &mut Vec<char>)
        ensures
            final(out)@ == old(out)@ + list_json(self@),
    {
        let ghost before = out@;
        push_text(out, "{\"name\":");
        write_quoted(out, self.name.as_str());
        push_text(out, ",\"additions\":");
        write_texts(out, &self.additions);
        push_text(out, ",\"deletions\":");
        write_texts(out, &self.deletions);
        push_text(out, "}");
        assert(out@ =~= before + list_json(self@));
    }
}

impl Data {
    /// The empty record.
    pub fn new() -> (d: Data)
        ensures
            d@.scalars == Seq::<ScalarView>::empty(),
            d@.lists == Seq::<ListView>::empty(),
    {
        let d = Data { scalars: Vec::new(), lists: Vec::new() };
        assert(d@.scalars =~= Seq::<ScalarView>::empty());
        assert(d@.lists =~= Seq::<ListView>::empty());
        d
    }

    /// Appends a scalar.
    pub fn add_scalar(
        &mut self,
        name: String,
        original: Option<String>,
        current: Option<String>,
        no_clobber: bool,
    )
        ensures
            final(self)@.scalars == old(self)@.scalars.push(
                ScalarView {
                    name: name@,
                    original: optional_text(original),
                    current: optional_text(current),
                    no_clobber,
                },
            ),
            final(self)@.lists == old(self)@.lists,
    {
        self.scalars.push(Scalar { name, original, current, no_clobber });
        assert(self@.scalars =~= old(self)@.scalars.push(
            ScalarView {
                name: name@,
                original: optional_text(original),
                current: optional_text(current),
                no_clobber,
            },
        ));
    }

    /// Appends a list.
    pub fn add_list(&mut self, name: String, additions: Vec<String>, deletions: Vec<String>)
        ensures
            final(self)@.lists == old(self)@.lists.push(
                ListView {
                    name: name@,
                    additions: string_texts(additions@),
                    deletions: string_texts(deletions@),
                },
            ),
            final(self)@.scalars == old(self)@.scalars,
    {
        self.lists.push(List { name, additions, deletions });
        assert(self@.lists =~= old(self)@.lists.push(
            ListView {
                name: name@,
                additions: string_texts(additions@),
                deletions: string_texts(deletions@),
            },
        ));
    }

    /// The record that a JSON document describes.
    pub fn from_json(j: &Json) -> (r: Result<Data, MalformedUndo>)
        ensures
            match r {
                Ok(d) => record_of(j@) == Some(d@),
                Err(e) => record_of(j@) is None && e == MalformedUndo::Schema,
            },
    {
        match j {
            Json::Object(e) => {
                let scalars = read_scalars(e);
                let lists = read_lists(e);
                match (scalars, lists) {
                    (Some(scalars), Some(lists)) => Ok(Data { scalars, lists }),
                    _ => Err(MalformedUndo::Schema),
                }
            },
            _ => Err(MalformedUndo::Schema),
        }
    }

    /// Reads a record from JSON text.
    pub fn from_str(data: &str) -> (r: Result<Data, MalformedUndo>)
        ensures
            match json_document(data@) {
                Ok(j) => match r {
                    Ok(d) => record_of(j) == Some(d@),
                    Err(e) => record_of(j) is None && e == MalformedUndo::Schema,
                },
                Err(message) => r matches Err(MalformedUndo::Json(m)) && m@ == message,
            },
    {
        match parse_json(data) {
            Ok(j) => Data::from_json(&j),
            Err(message) => Err(MalformedUndo::Json(message)),
        }
    }

    /// The record as compact JSON.
    pub fn to_json(&self) -> (r: String)
        ensures
            r@ == data_json(self@),
    {
        let mut scalars: Vec<Vec<char>> = Vec::new();
        let mut i: usize = 0;
        while i < self.scalars.len()
            invariant
                i <= self.scalars.len(),
                scalars@.len() == i,
                forall|k: int| 0 <= k < i ==> (#[trigger] scalars@[k])@ == scalar_json(self.scalars@[k]@),
            decreases self.scalars.len() - i,
        {
            let mut piece: Vec<char> = Vec::new();
            self.scalars[i].write_json(&mut piece);
            scalars.push(piece);
            i = i + 1;
        }
        let mut lists: Vec<Vec<char>> = Vec::new();
        let mut i: usize = 0;
        while i < self.lists.len()
            invariant
                i <= self.lists.len(),
                lists@.len() == i,
                forall|k: int| 0 <= k < i ==> (#[trigger] lists@[k])@ == list_json(self.lists@[k]@),
            decreases self.lists.len() - i,
        {
            let mut piece: Vec<char> = Vec::new();
            self.lists[i].write_json(&mut piece);
            lists.push(piece);
            i = i + 1;
        }
        assert(texts(scalars@) =~= self@.scalars.map_values(|s: ScalarView| scalar_json(s)));
        assert(texts(lists@) =~= self@.lists.map_values(|l: ListView| list_json(l)));
        let mut out: Vec<char> = Vec::new();
        push_text(&mut out, "{\"scalars\":");
        write_array(&mut out, &scalars);
        push_text(&mut out, ",\"lists\":");
        write_array(&mut out, &lists);
        push_text(&mut out, "}");
        assert(out@ =~= data_json(self@));
        string_of(&out)
    }
}

// ---------------------------------------------------------------------
// The record as it travels
// ---------------------------------------------------------------------
/// The part of a carried record before its first colon: the hash. A text
/// without a colon is all hash.
pub open spec fn hash_part(text: Seq<char>) -> Seq<char> {
    let i = first_index(text, ':');
    if 0 <= i < text.len() {
        text.take(i)
    } else {
        text
    }
}

/// The part of a carried record after its first colon: the JSON. A text
/// without a colon has none, which is an empty JSON part.
pub open spec fn json_part(text: Seq<char>) -> Seq<char> {
    let i = first_index(text, ':');
    if 0 <= i < text.len() {
        text.skip(i + 1)
    } else {
        Seq::empty()
    }
}

/// What the hash part says: `None` where it is malformed, no hash where it
/// is empty or writes zero, and otherwise the hash that its sixteen
/// hexadecimal digits write.
pub open spec fn previous_hash(part: Seq<char>) -> Option<Option<u64>> {
    if part.len() == 0 {
        Some(None)
    } else {
        match hash_of_text(part) {
            None => None,
            Some(h) => if h == 0 {
                Some(None)
            } else {
                Some(Some(h))
            },
        }
    }
}

/// The two parts of a carried record.
pub fn split_record(text: &str) -> (r: (Vec<char>, Vec<char>))
    ensures
        r.0@ == hash_part(text@),
        r.1@ == json_part(text@),
{
    let chars = chars_of(text);
    let mut i: usize = 0;
    while i < chars.len() && chars[i] != ':'
        invariant
            i <= chars.len(),
            forall|k: int| 0 <= k < i ==> chars@[k] != ':',
        decreases chars.len() - i,
    {
        i = i + 1;
    }
    proof {
        lemma_first_index_is(chars@, ':', i as int);
    }
    if i == chars.len() {
        (chars, Vec::new())
    } else {
        let mut head: Vec<char> = Vec::new();
        let mut k: usize = 0;
        while k < i
            invariant
                k <= i < chars.len(),
                head@ == chars@.take(k as int),
            decreases i - k,
        {
            head.push(chars[k]);
            k = k + 1;
            assert(chars@.take(k as int) =~= chars@.take(k - 1).push(chars@[k - 1]));
        }
        let mut tail: Vec<char> = Vec::new();
        let mut k: usize = i + 1;
        while k < chars.len()
            invariant
                i + 1 <= k <= chars.len(),
                tail@ == chars@.subrange(i + 1, k as int),
            decreases chars.len() - k,
        {
            tail.push(chars[k]);
            k = k + 1;
            assert(chars@.subrange(i + 1, k as int) =~= chars@.subrange(i + 1, k - 1).push(
                chars@[k - 1],
            ));
        }
        assert(chars@.subrange(i + 1, chars.len() as int) =~= chars@.skip(i + 1));
        (head, tail)
    }
}

/// Reads the hash part of a carried record.
pub fn parse_previous_hash(part: &Vec<char>) -> (r: Result<Option<u64>, MalformedUndo>)
    ensures
        match r {
            Ok(h) => previous_hash(part@) == Some(h),
            Err(e) => previous_hash(part@) is None && e == MalformedUndo::Hash,
        },
{
    if part.len() == 0 {
        return Ok(None);
    }
    match parse_hex16(part) {
        Some(h) => if h == 0 {
            Ok(None)
        } else {
            Ok(Some(h))
        },
        None => Err(MalformedUndo::Hash),
    }
}

/// The record that a carried record holds, given what the JSON reader made
/// of its JSON part. An empty JSON part is an empty record, whatever the
/// reader made of it. The hash part is not looked at.
pub open spec fn carried_record_with(text: Seq<char>, document: Result<JsonView, Seq<char>>) -> Result<
    DataView,
    MalformedUndoView,
> {
    if json_part(text).len() == 0 {
        Ok(DataView { scalars: Seq::empty(), lists: Seq::empty() })
    } else {
        match document {
            Err(message) => Err(MalformedUndoView::Json(message)),
            Ok(j) => match record_of(j) {
                None => Err(MalformedUndoView::Schema),
                Some(d) => Ok(d),
            },
        }
    }
}

/// The record that a carried record holds.
pub open spec fn carried_record(text: Seq<char>) -> Result<DataView, MalformedUndoView> {
    carried_record_with(text, json_document(json_part(text)))
}

/// What a carried record says: the hash of the chain that it was made for,
/// where one is active, and the record. A malformed hash is found before
/// the record is looked at.
pub open spec fn carried(text: Seq<char>) -> Result<(Option<u64>, DataView), MalformedUndoView> {
    match previous_hash(hash_part(text)) {
        None => Err(MalformedUndoView::Hash),
        Some(prev) => match carried_record(text) {
            Ok(d) => Ok((prev, d)),
            Err(e) => Err(e),
        },
    }
}

/// What the JSON reader made of a text, as plain values.
pub open spec fn document_view(document: Result<Json, String>) -> Result<JsonView, Seq<char>> {
    match document {
        Ok(j) => Ok(j@),
        Err(message) => Err(message@),
    }
}

/// Reads the record that a carried record holds, given what the JSON
/// reader made of its JSON part.
pub fn read_record(text: &str, document: &Result<Json, String>) -> (r: Result<Data, MalformedUndo>)
    ensures
        match r {
            Ok(d) => carried_record_with(text@, document_view(*document)) == Ok::<
                DataView,
                MalformedUndoView,
            >(d@),
            Err(e) => carried_record_with(text@, document_view(*document)) == Err::<
                DataView,
                MalformedUndoView,
            >(e@),
        },
{
    let (_, tail) = split_record(text);
    if tail.len() == 0 {
        return Ok(Data::new());
    }
    match document {
        Ok(j) => Data::from_json(j),
        Err(message) => Err(MalformedUndo::Json(message.clone())),
    }
}

/// Reads the record that a carried record holds. The JSON reader is asked
/// only where the JSON part is not empty.
pub fn load_record(text: &str) -> (r: Result<Data, MalformedUndo>)
    ensures
        match r {
            Ok(d) => carried_record(text@) == Ok::<DataView, MalformedUndoView>(d@),
            Err(e) => carried_record(text@) == Err::<DataView, MalformedUndoView>(e@),
        },
{
    let (_, tail) = split_record(text);
    if tail.len() == 0 {
        return Ok(Data::new());
    }
    let json = string_of(&tail);
    let document = parse_json(json.as_str());
    read_record(text, &document)
}

/// Reads the hash of a carried record: the hash of the chain that it was
/// made for, where one is active.
pub fn load_previous_hash(text: &str) -> (r: Result<Option<u64>, MalformedUndo>)
    ensures
        match r {
            Ok(h) => previous_hash(hash_part(text@)) == Some(h),
            Err(e) => previous_hash(hash_part(text@)) is None && e == MalformedUndo::Hash,
        },
{
    let (head, _) = split_record(text);
    parse_previous_hash(&head)
}

/// Reads a carried record: first its hash, then its record.
pub fn load_shadowenv_data(text: &str) -> (r: Result<(Option<u64>, Data), MalformedUndo>)
    ensures
        match r {
            Ok(pair) => carried(text@) == Ok::<(Option<u64>, DataView), MalformedUndoView>(
                (pair.0, pair.1@),
            ),
            Err(e) => carried(text@) == Err::<(Option<u64>, DataView), MalformedUndoView>(e@),
        },
{
    let prev = match load_previous_hash(text) {
        Ok(prev) => prev,
        Err(e) => {
            return Err(e);
        },
    };
    match load_record(text) {
        Ok(d) => Ok((prev, d)),
        Err(e) => Err(e),
    }
}

/// How a malformed record is reported.
pub open spec fn malformed_text(e: MalformedUndoView) -> Seq<char> {
    match e {
        MalformedUndoView::Hash => "wrong input size"@,
        MalformedUndoView::Json(message) => message,
        MalformedUndoView::Schema => "undo record does not match the schema"@,
    }
}

impl MalformedUndo {
    /// The message for the user.
    pub fn to_string(&self) -> (r: String)
        ensures
            r@ == malformed_text(self@),
    {
        match self {
            MalformedUndo::Hash => String::from_str("wrong input size"),
            MalformedUndo::Json(message) => message.clone(),
            MalformedUndo::Schema => String::from_str("undo record does not match the schema"),
        }
    }
}

} // verus!
