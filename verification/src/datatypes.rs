use vstd::prelude::*;
use crate::bytes::{frame, framed};
use crate::error::Error;
use crate::transactions::DataType;

verus! {

/// The kind of a template's field.
#[derive(Clone, Copy, Debug, PartialEq, Eq, Structural)]
pub enum FieldDataType {
    Title,
    CheckBox,
    Rating { min: i64, max: i64 },
    Number,
    ShortText,
    LongText,
}

/// The value of a form's field, tagged with its kind.
#[derive(Clone, Debug, PartialEq, Eq)]
pub enum FieldData {
    CheckBox(bool),
    Rating(i64),
    Number(i64),
    ShortText(String),
    LongText(String),
}

/// Whether a value's tag is the one a field of kind `kind` takes. A rating
/// takes any integer: its bounds are not enforced. A title takes no value.
pub open spec fn kind_matches(kind: FieldDataType, data: FieldData) -> bool {
    match data {
        FieldData::CheckBox(_) => kind == FieldDataType::CheckBox,
        FieldData::Rating(_) => kind is Rating,
        FieldData::Number(_) => kind == FieldDataType::Number,
        FieldData::ShortText(_) => kind == FieldDataType::ShortText,
        FieldData::LongText(_) => kind == FieldDataType::LongText,
    }
}

/// One field of a template: its name and its kind.
#[derive(Clone, Debug)]
pub struct FieldTemplate {
    data_type: FieldDataType,
    name: String,
}

impl FieldTemplate {
    pub closed spec fn spec_name(&self) -> Seq<char> {
        self.name@
    }

    pub closed spec fn spec_data_type(&self) -> FieldDataType {
        self.data_type
    }

    /// The field's name.
    pub fn name(&self) -> (name: &String)
        ensures
            name@ == self.spec_name(),
    {
        &self.name
    }

    /// The field's kind.
    #[verifier::when_used_as_spec(spec_data_type)]
    pub fn data_type(&self) -> (kind: FieldDataType)
        ensures
            kind == self.spec_data_type(),
    {
        self.data_type
    }

    /// Whether `data` carries the tag that this field takes.
    pub fn data_type_match(&self, data: &FieldData) -> (matches: bool)
        ensures
            matches == kind_matches(self.spec_data_type(), *data),
    {
        match data {
            FieldData::CheckBox(_) => self.data_type == FieldDataType::CheckBox,
            FieldData::Rating(_) => match self.data_type {
                FieldDataType::Rating { .. } => true,
                _ => false,
            },
            FieldData::Number(_) => self.data_type == FieldDataType::Number,
            FieldData::ShortText(_) => self.data_type == FieldDataType::ShortText,
            FieldData::LongText(_) => self.data_type == FieldDataType::LongText,
        }
    }
}

/// A template: a name, a year and the fields that its forms fill in, in order.
#[derive(Clone, Debug)]
pub struct FormTemplate {
    fields: Vec<FieldTemplate>,
    pub name: String,
    year: i64,
}

/// A template as a mathematical value.
pub struct TemplateView {
    pub name: Seq<char>,
    pub year: i64,
    pub fields: Seq<(Seq<char>, FieldDataType)>,
}

impl View for FormTemplate {
    type V = TemplateView;

    closed spec fn view(&self) -> TemplateView {
        TemplateView {
            name: self.name@,
            year: self.year,
            fields: Seq::new(
                self.fields@.len(),
                |i: int| (self.fields@[i].spec_name(), self.fields@[i].spec_data_type()),
            ),
        }
    }
}

/// One named value of a form.
#[derive(Clone, Debug)]
pub struct FormField {
    name: String,
    data: FieldData,
}

impl FormField {
    pub closed spec fn spec_name(&self) -> Seq<char> {
        self.name@
    }

    pub closed spec fn spec_data(&self) -> FieldData {
        self.data
    }

    /// The name the value stands under.
    pub fn name(&self) -> (name: &String)
        ensures
            name@ == self.spec_name(),
    {
        &self.name
    }

    /// The value.
    pub fn data(&self) -> (data: &FieldData)
        ensures
            *data == self.spec_data(),
    {
        &self.data
    }
}

/// A filled-in form.
#[derive(Clone, Debug)]
pub struct Form {
    fields: Vec<FormField>,
    pub scouter: String,
    pub team: i64,
    pub match_number: i64,
    pub event_key: String,
    pub id: Option<u128>,
}

/// The value that the first of `fields` with the name `name` holds.
pub closed spec fn lookup(fields: Seq<FormField>, name: Seq<char>) -> Option<FieldData>
    decreases fields.len(),
{
    if fields.len() == 0 {
        None
    } else if fields[0].name@ == name {
        Some(fields[0].data)
    } else {
        lookup(fields.drop_first(), name)
    }
}

/// A form as a mathematical value: its named values and what it says of
/// itself.
pub struct FormView {
    pub fields: Map<Seq<char>, FieldData>,
    pub scouter: Seq<char>,
    pub team: i64,
    pub match_number: i64,
    pub event_key: Seq<char>,
    pub id: Option<u128>,
}

impl View for Form {
    type V = FormView;

    closed spec fn view(&self) -> FormView {
        FormView {
            fields: Map::new(
                |name: Seq<char>| lookup(self.fields@, name) is Some,
                |name: Seq<char>| lookup(self.fields@, name).unwrap(),
            ),
            scouter: self.scouter@,
            team: self.team,
            match_number: self.match_number,
            event_key: self.event_key@,
            id: self.id,
        }
    }
}

/// Whether `form` follows the template: for every field of the template that
/// is not a title, the form holds a value under the field's name, and the
/// value's tag is the one the field takes. Values under other names are
/// permitted.
pub open spec fn follows(template: TemplateView, form: FormView) -> bool {
    forall|i: int|
        0 <= i < template.fields.len() && (#[trigger] template.fields[i]).1 != FieldDataType::Title
            ==> form.fields.contains_key(template.fields[i].0) && kind_matches(
            template.fields[i].1,
            form.fields[template.fields[i].0],
        )
}

impl FormTemplate {
    /// A template without fields.
    pub fn new(name: &str, year: i64) -> (template: FormTemplate)
        ensures
            template@.name == name@,
            template@.year == year,
            template@.fields == Seq::<(Seq<char>, FieldDataType)>::empty(),
    {
        let template = FormTemplate { fields: Vec::new(), name: name.to_owned(), year };
        assert(template@.fields =~= Seq::<(Seq<char>, FieldDataType)>::empty());
        template
    }

    /// Appends a field.
    pub fn add_field(&mut self, name: &str, data_type: FieldDataType)
        ensures
            final(self)@.name == old(self)@.name,
            final(self)@.year == old(self)@.year,
            final(self)@.fields == old(self)@.fields.push((name@, data_type)),
    {
        self.fields.push(FieldTemplate { name: name.to_owned(), data_type });
        assert(self@.fields =~= old(self)@.fields.push((name@, data_type)));
    }

    /// The template's name.
    pub fn name(&self) -> (name: &String)
        ensures
            name@ == self@.name,
    {
        &self.name
    }

    /// The template's year.
    pub fn year(&self) -> (year: i64)
        ensures
            year == self@.year,
    {
        self.year
    }

    /// The template's fields, in order.
    pub fn fields(&self) -> (fields: &Vec<FieldTemplate>)
        ensures
            fields@.len() == self@.fields.len(),
            forall|i: int|
                0 <= i < fields@.len() ==> (#[trigger] fields@[i]).spec_name() == self@.fields[i].0
                    && fields@[i].spec_data_type() == self@.fields[i].1,
    {
        &self.fields
    }

    /// Checks a form against the template.
    pub fn validate_form(&self, form: &Form) -> (valid: bool)
        ensures
            valid == follows(self@, form@),
    {
        let mut i: usize = 0;
        while i < self.fields.len()
            invariant
                i <= self.fields.len(),
                forall|k: int|
                    0 <= k < i && (#[trigger] self@.fields[k]).1 != FieldDataType::Title
                        ==> form@.fields.contains_key(self@.fields[k].0) && kind_matches(
                        self@.fields[k].1,
                        form@.fields[self@.fields[k].0],
                    ),
            decreases self.fields.len() - i,
        {
            let x = &self.fields[i];
            assert(self@.fields[i as int] == (x.spec_name(), x.spec_data_type()));
            match x.data_type {
                FieldDataType::Title => {},
                _ => {
                    match form.get_field(x.name.as_str()) {
                        None => {
                            return false;
                        },
                        Some(data) => {
                            if !x.data_type_match(data) {
                                return false;
                            }
                        },
                    }
                },
            }
            i += 1;
        }
        true
    }
}

impl Default for Form {
    /// A form without values, for team 0 and match 0.
    fn default() -> (form: Form)
        ensures
            form@ == (FormView {
                fields: Map::empty(),
                scouter: Seq::empty(),
                team: 0,
                match_number: 0,
                event_key: Seq::empty(),
                id: None,
            }),
    {
        let form = Form {
            fields: Vec::new(),
            scouter: String::new(),
            team: 0,
            match_number: 0,
            event_key: String::new(),
            id: None,
        };
        assert(form@.fields =~= Map::empty());
        form
    }
}

impl Form {
    /// A form without values and without an identifier, which says of itself
    /// what is given.
    pub fn new(scouter: String, team: i64, match_number: i64, event_key: String) -> (form: Form)
        ensures
            form@ == (FormView {
                fields: Map::empty(),
                scouter: scouter@,
                team,
                match_number,
                event_key: event_key@,
                id: None,
            }),
    {
        let form = Form { fields: Vec::new(), scouter, team, match_number, event_key, id: None };
        assert(form@.fields =~= Map::empty());
        form
    }

    /// Puts `data` under `name`, in place of the value that stood there.
    pub fn add_field(&mut self, name: &str, data: FieldData)
        ensures
            final(self)@ == (FormView {
                fields: old(self)@.fields.insert(name@, data),
                ..old(self)@
            }),
    {
        let key = name.to_owned();
        let mut i: usize = 0;
        while i < self.fields.len()
            invariant
                i <= self.fields.len(),
                key@ == name@,
                *self == *old(self),
                forall|k: int| 0 <= k < i ==> (#[trigger] self.fields@[k]).name@ != name@,
            decreases self.fields.len() - i,
        {
            if self.fields[i].name == key {
                let ghost before = self.fields@;
                self.fields.set(i, FormField { name: key, data });
                proof {
                    let after = self.fields@;
                    assert forall|other: Seq<char>|
                        lookup(after, other) == if other == name@ {
                            Some(data)
                        } else {
                            lookup(before, other)
                        } by {
                        lemma_lookup_update(before, after, i as int, name@, other);
                    }
                    assert(self@.fields =~= old(self)@.fields.insert(name@, data));
                }
                return ;
            }
            i += 1;
        }
        let ghost before = self.fields@;
        let added = FormField { name: key, data };
        let ghost entry = added;
        self.fields.push(added);
        proof {
            assert(self.fields@ == before.push(entry));
            assert forall|other: Seq<char>|
                lookup(self.fields@, other) == if other == name@ {
                    Some(data)
                } else {
                    lookup(before, other)
                } by {
                lemma_lookup_push(before, entry, other);
            }
            assert(self@.fields =~= old(self)@.fields.insert(name@, data));
        }
    }

    /// The form's named values, in the order in which their names were first
    /// put in: every name that the form holds a value under, with that value.
    pub fn entries(&self) -> (entries: &Vec<FormField>)
        ensures
            forall|i: int|
                0 <= i < entries@.len() ==> self@.fields.contains_key((#[trigger] entries@[i]).spec_name()),
            forall|name: Seq<char>|
                self@.fields.contains_key(name) ==> exists|i: int|
                    0 <= i < entries@.len() && (#[trigger] entries@[i]).spec_name() == name
                        && entries@[i].spec_data() == self@.fields[name],
    {
        proof {
            assert forall|i: int| 0 <= i < self.fields@.len() implies self@.fields.contains_key(
                (#[trigger] self.fields@[i]).spec_name(),
            ) by {
                lemma_lookup_finds(self.fields@, i);
            }
            assert forall|name: Seq<char>| self@.fields.contains_key(name) implies exists|i: int|
                0 <= i < self.fields@.len() && (#[trigger] self.fields@[i]).spec_name() == name
                    && self.fields@[i].spec_data() == self@.fields[name] by {
                let i = lemma_lookup_found(self.fields@, name);
            }
        }
        &self.fields
    }

    /// The value under `name`.
    pub fn get_field(&self, name: &str) -> (res: Option<&FieldData>)
        ensures
            match res {
                Some(data) => self@.fields.contains_key(name@) && self@.fields[name@] == *data,
                None => !self@.fields.contains_key(name@),
            },
    {
        let key = name.to_owned();
        let mut i: usize = 0;
        assert(self.fields@.skip(0) =~= self.fields@);
        while i < self.fields.len()
            invariant
                i <= self.fields.len(),
                key@ == name@,
                lookup(self.fields@, name@) == lookup(self.fields@.skip(i as int), name@),
            decreases self.fields.len() - i,
        {
            proof {
                let rest = self.fields@.skip(i as int);
                assert(rest[0] == self.fields@[i as int]);
                assert(rest.drop_first() =~= self.fields@.skip(i + 1));
            }
            if self.fields[i].name == key {
                return Some(&self.fields[i].data);
            }
            i += 1;
        }
        None
    }
}

/// A name that some field has is a name that a value stands under.
proof fn lemma_lookup_finds(fields: Seq<FormField>, i: int)
    requires
        0 <= i < fields.len(),
    ensures
        lookup(fields, fields[i].name@) is Some,
    decreases fields.len(),
{
    if fields[0].name@ != fields[i].name@ {
        let rest = fields.drop_first();
        assert(rest[i - 1] == fields[i]);
        lemma_lookup_finds(rest, i - 1);
    }
}

/// The value under a name is that of a field with the name.
proof fn lemma_lookup_found(fields: Seq<FormField>, name: Seq<char>) -> (i: int)
    requires
        lookup(fields, name) is Some,
    ensures
        0 <= i < fields.len(),
        fields[i].name@ == name,
        lookup(fields, name) == Some(fields[i].data),
    decreases fields.len(),
{
    if fields[0].name@ == name {
        0
    } else {
        let rest = fields.drop_first();
        let k = lemma_lookup_found(rest, name);
        assert(rest[k] == fields[k + 1]);
        k + 1
    }
}

/// Replacing the first field named `name` changes what stands under `name` and
/// nothing else.
proof fn lemma_lookup_update(
    before: Seq<FormField>,
    after: Seq<FormField>,
    i: int,
    name: Seq<char>,
    other: Seq<char>,
)
    requires
        0 <= i < before.len(),
        after.len() == before.len(),
        forall|k: int| 0 <= k < before.len() && k != i ==> after[k] == before[k],
        before[i].name@ == name,
        after[i].name@ == name,
        forall|k: int| 0 <= k < i ==> (#[trigger] before[k]).name@ != name,
    ensures
        lookup(after, other) == if other == name {
            Some(after[i].data)
        } else {
            lookup(before, other)
        },
    decreases before.len(),
{
    if i == 0 {
        assert(after.drop_first() =~= before.drop_first());
    } else {
        assert(before[0].name@ != name);
        assert(after[0] == before[0]);
        let b = before.drop_first();
        let a = after.drop_first();
        assert forall|k: int| 0 <= k < i - 1 implies (#[trigger] b[k]).name@ != name by {
            assert(b[k] == before[k + 1]);
        }
        lemma_lookup_update(b, a, i - 1, name, other);
    }
}

/// Appending a field named `name` where none has that name puts its value
/// under `name` and changes nothing else.
proof fn lemma_lookup_push(before: Seq<FormField>, added: FormField, other: Seq<char>)
    requires
        forall|k: int| 0 <= k < before.len() ==> (#[trigger] before[k]).name@ != added.name@,
    ensures
        lookup(before.push(added), other) == if other == added.name@ {
            Some(added.data)
        } else {
            lookup(before, other)
        },
    decreases before.len(),
{
    let after = before.push(added);
    if before.len() == 0 {
        assert(after.drop_first() =~= Seq::<FormField>::empty());
    } else {
        assert(after[0] == before[0]);
        let b = before.drop_first();
        assert(after.drop_first() =~= b.push(added));
        assert forall|k: int| 0 <= k < b.len() implies (#[trigger] b[k]).name@ != added.name@ by {
            assert(b[k] == before[k + 1]);
        }
        lemma_lookup_push(b, added, other);
    }
}

/// The predicates of a search for forms; an absent one lets every form pass.
#[derive(Clone, Debug, PartialEq, Eq)]
pub struct Filter {
    pub match_number: Option<i64>,
    pub team: Option<i64>,
    pub event: Option<String>,
    pub scouter: Option<String>,
}

/// A filter as a mathematical value.
pub struct FilterView {
    pub match_number: Option<i64>,
    pub team: Option<i64>,
    pub event: Option<Seq<char>>,
    pub scouter: Option<Seq<char>>,
}

impl View for Filter {
    type V = FilterView;

    open spec fn view(&self) -> FilterView {
        FilterView {
            match_number: self.match_number,
            team: self.team,
            event: match self.event {
                Some(e) => Some(e@),
                None => None,
            },
            scouter: match self.scouter {
                Some(s) => Some(s@),
                None => None,
            },
        }
    }
}

/// What the engine knows of a form besides its bytes: the template it was
/// filed under and the attributes it can be found by.
#[derive(Clone, Debug, PartialEq, Eq)]
pub struct FormSummary {
    pub template: String,
    pub team: i64,
    pub match_number: i64,
    pub event_key: String,
    pub scouter: String,
}

/// A form's summary as a mathematical value.
pub struct SummaryView {
    pub template: Seq<char>,
    pub team: i64,
    pub match_number: i64,
    pub event_key: Seq<char>,
    pub scouter: Seq<char>,
}

impl View for FormSummary {
    type V = SummaryView;

    open spec fn view(&self) -> SummaryView {
        SummaryView {
            template: self.template@,
            team: self.team,
            match_number: self.match_number,
            event_key: self.event_key@,
            scouter: self.scouter@,
        }
    }
}

impl SummaryView {
    /// Whether a form with this summary, filed under `template`, passes every
    /// predicate that `filter` holds.
    pub open spec fn passes(self, template: Seq<char>, filter: FilterView) -> bool {
        &&& self.template == template
        &&& filter.team matches Some(team) ==> self.team == team
        &&& filter.match_number matches Some(n) ==> self.match_number == n
        &&& filter.event matches Some(event) ==> self.event_key == event
        &&& filter.scouter matches Some(scouter) ==> self.scouter == scouter
    }
}

impl FormSummary {
    /// A copy of the summary.
    pub fn duplicate(&self) -> (copy: FormSummary)
        ensures
            copy@ == self@,
    {
        FormSummary {
            template: self.template.clone(),
            team: self.team,
            match_number: self.match_number,
            event_key: self.event_key.clone(),
            scouter: self.scouter.clone(),
        }
    }

    /// Whether the summary passes every predicate that `filter` holds, for a
    /// search under `template`.
    pub fn passes(&self, template: &String, filter: &Filter) -> (ok: bool)
        ensures
            ok == self@.passes(template@, filter@),
    {
        if self.template != *template {
            return false;
        }
        if let Some(team) = filter.team {
            if self.team != team {
                return false;
            }
        }
        if let Some(n) = filter.match_number {
            if self.match_number != n {
                return false;
            }
        }
        if let Some(event) = &filter.event {
            if self.event_key != *event {
                return false;
            }
        }
        if let Some(scouter) = &filter.scouter {
            if self.scouter != *scouter {
                return false;
            }
        }
        true
    }
}

/// A row of the forms index: the blob of a live form's current version and
/// the attributes the form is found by.
#[derive(Clone, Debug, PartialEq, Eq)]
pub struct DBForm {
    pub blob_id: u128,
    pub team: i64,
    pub match_number: i64,
    pub event_key: String,
    pub template: String,
}

/// A row of the forms index as a mathematical value.
pub struct RowView {
    pub blob_id: u128,
    pub team: i64,
    pub match_number: i64,
    pub event_key: Seq<char>,
    pub template: Seq<char>,
}

impl View for DBForm {
    type V = RowView;

    open spec fn view(&self) -> RowView {
        RowView {
            blob_id: self.blob_id,
            team: self.team,
            match_number: self.match_number,
            event_key: self.event_key@,
            template: self.template@,
        }
    }
}

impl SummaryView {
    /// The index row for a form with this summary whose bytes are the blob
    /// `blob_id`.
    pub open spec fn row(self, blob_id: u128) -> RowView {
        RowView {
            blob_id,
            team: self.team,
            match_number: self.match_number,
            event_key: self.event_key,
            template: self.template,
        }
    }
}

impl FormView {
    /// What the engine keeps of the form when it is filed under `template`.
    pub open spec fn summary(self, template: Seq<char>) -> SummaryView {
        SummaryView {
            template,
            team: self.team,
            match_number: self.match_number,
            event_key: self.event_key,
            scouter: self.scouter,
        }
    }
}

impl Form {
    /// The index row for the form, filed under `template`, with its bytes in
    /// the blob `blob_id`.
    pub fn to_db_form(self, blob_id: u128, template: String) -> (row: DBForm)
        ensures
            row@ == self@.summary(template@).row(blob_id),
    {
        DBForm {
            blob_id,
            template,
            team: self.team,
            match_number: self.match_number,
            event_key: self.event_key,
        }
    }

    /// The form with the identifier `id` in it.
    pub fn with_id(self, id: u128) -> (form: Form)
        ensures
            form@ == (FormView { id: Some(id), ..self@ }),
    {
        Form {
            fields: self.fields,
            scouter: self.scouter,
            team: self.team,
            match_number: self.match_number,
            event_key: self.event_key,
            id: Some(id),
        }
    }

    /// What the engine keeps of the form when it is filed under `template`.
    pub fn summary(&self, template: &str) -> (summary: FormSummary)
        ensures
            summary@ == self@.summary(template@),
    {
        FormSummary {
            template: template.to_owned(),
            team: self.team,
            match_number: self.match_number,
            event_key: self.event_key.clone(),
            scouter: self.scouter.clone(),
        }
    }
}

/// An entity that the store keeps under an alt-key: it names itself, says
/// which kind it is, and turns itself into the bytes of its blob.
///
/// Beside each method stands a function that contracts speak of: what the
/// method returns. A type of this crate defines the three and proves its
/// methods against them; for any other type they are names for its methods'
/// results, which are taken to depend on the entity alone.
pub trait StorableObject: Sized {
    /// The alt-key that `get_alt_key` returns.
    open spec fn alt_key(&self) -> Seq<char> {
        arbitrary()
    }

    /// The kind that `get_type` returns.
    open spec fn data_type(&self) -> DataType {
        arbitrary()
    }

    /// What `ser` returns: the bytes of the entity's blob, or the error with
    /// which the entity refuses to give them.
    open spec fn serialized(self) -> Result<Seq<u8>, Error> {
        arbitrary()
    }

    fn get_alt_key(&self) -> (alt_key: String)
        ensures
            alt_key@ == self.alt_key(),
    ;

    fn get_type(&self) -> (data_type: DataType)
        ensures
            data_type == self.data_type(),
    ;

    fn ser(self) -> (res: Result<Vec<u8>, Error>)
        ensures
            match res {
                Ok(payload) => self.serialized() == Ok::<Seq<u8>, Error>(payload@),
                Err(e) => self.serialized() == Err::<Seq<u8>, Error>(e),
            },
    ;
}

/// A bytes entity: an alt-key that its writer chose, and a payload.
#[derive(Clone, Debug)]
pub struct BytesReference(pub String, pub Vec<u8>);

impl StorableObject for BytesReference {
    open spec fn alt_key(&self) -> Seq<char> {
        self.0@
    }

    open spec fn data_type(&self) -> DataType {
        DataType::Bytes
    }

    open spec fn serialized(self) -> Result<Seq<u8>, Error> {
        Ok(framed(self.0@, self.1@))
    }

    fn get_alt_key(&self) -> (alt_key: String) {
        self.0.clone()
    }

    fn get_type(&self) -> (data_type: DataType) {
        DataType::Bytes
    }

    fn ser(self) -> (res: Result<Vec<u8>, Error>) {
        Ok(frame(self.0.as_str(), self.1.as_slice()))
    }
}

/// An entity that was serialized already: its alt-key, its kind and the bytes
/// of its blob.
#[derive(Clone, Debug)]
pub struct Serialized {
    pub alt_key: String,
    pub data_type: DataType,
    pub payload: Vec<u8>,
}

impl StorableObject for Serialized {
    open spec fn alt_key(&self) -> Seq<char> {
        self.alt_key@
    }

    open spec fn data_type(&self) -> DataType {
        self.data_type
    }

    open spec fn serialized(self) -> Result<Seq<u8>, Error> {
        Ok(self.payload@)
    }

    fn get_alt_key(&self) -> (alt_key: String) {
        self.alt_key.clone()
    }

    fn get_type(&self) -> (data_type: DataType) {
        self.data_type
    }

    fn ser(self) -> (res: Result<Vec<u8>, Error>) {
        Ok(self.payload)
    }
}

} // verus!
