//! Equipment records and how they are read from the features of a response.
use crate::json::Json;
use vstd::prelude::*;

verus! {

/// One physical elevator or escalator as the service reports it.
pub struct Equipment {
    pub name: String,
    pub category: String,
    pub working: Option<bool>,
    pub place: Option<String>,
}

pub ghost struct EquipmentView {
    pub name: Seq<char>,
    pub category: Seq<char>,
    pub working: Option<bool>,
    pub place: Option<Seq<char>>,
}

pub open spec fn text_of(s: Option<String>) -> Option<Seq<char>> {
    match s {
        Some(t) => Some(t@),
        None => None,
    }
}

impl View for Equipment {
    type V = EquipmentView;

    open spec fn view(&self) -> EquipmentView {
        EquipmentView {
            name: self.name@,
            category: self.category@,
            working: self.working,
            place: text_of(self.place),
        }
    }
}

impl Equipment {
    /// A copy with the same fields.
    pub fn duplicate(&self) -> (r: Equipment)
        ensures
            r@ == self@,
    {
        Equipment {
            name: self.name.clone(),
            category: self.category.clone(),
            working: self.working,
            place: match &self.place {
                Some(p) => Some(p.clone()),
                None => None,
            },
        }
    }
}

/// Why a feature, a location or a search could not be resolved.
pub enum EquipmentAccessError {
    /// A field that was expected is absent, with the JSON text that lacks it.
    MissingValue(String, String),
    /// A value has the wrong JSON type.
    InvalidType { expected_type: String, json: String },
    /// The service answered with a status other than success.
    HTTPRequestError { status: u16, response_text: String },
    /// No equipment matches a search label.
    CannotFindEquipment { query_text: String },
}

pub ghost enum AccessErrorView {
    MissingValue(Seq<char>, Seq<char>),
    InvalidType(Seq<char>, Seq<char>),
    HttpRequest(u16, Seq<char>),
    NotFound(Seq<char>),
}

impl View for EquipmentAccessError {
    type V = AccessErrorView;

    open spec fn view(&self) -> AccessErrorView {
        match self {
            EquipmentAccessError::MissingValue(field, json) => AccessErrorView::MissingValue(
                field@,
                json@,
            ),
            EquipmentAccessError::InvalidType { expected_type, json } =>
                AccessErrorView::InvalidType(expected_type@, json@),
            EquipmentAccessError::HTTPRequestError { status, response_text } =>
                AccessErrorView::HttpRequest(*status, response_text@),
            EquipmentAccessError::CannotFindEquipment { query_text } => AccessErrorView::NotFound(
                query_text@,
            ),
        }
    }
}

pub open spec fn placeholder_name() -> Seq<char> {
    "Cannot find description!"@
}

pub open spec fn default_category() -> Seq<char> {
    "elevator"@
}

/// `isWorking` when it is a boolean; unknown otherwise.
pub open spec fn working_of(props: Json) -> Option<bool> {
    match props.spec_get("isWorking"@) {
        Some(w) => w.spec_as_bool(),
        None => None,
    }
}

/// `description.de`, else `description` as a plain string, else the
/// placeholder; an empty text counts as none, so a name is never empty.
pub open spec fn name_of(props: Json) -> Seq<char> {
    match props.spec_get("description"@) {
        Some(d) => {
            let inner = match d.spec_get("de"@) {
                Some(de) => de,
                None => d,
            };
            match inner.spec_as_str() {
                Some(s) => if s.len() > 0 {
                    s
                } else {
                    placeholder_name()
                },
                None => placeholder_name(),
            }
        },
        None => placeholder_name(),
    }
}

/// `category` when it is a string; an elevator otherwise.
pub open spec fn category_of(props: Json) -> Seq<char> {
    match props.spec_get("category"@) {
        Some(c) => match c.spec_as_str() {
            Some(s) => s,
            None => default_category(),
        },
        None => default_category(),
    }
}

/// `placeInfoName` when it is a string.
pub open spec fn place_of(props: Json) -> Option<Seq<char>> {
    match props.spec_get("placeInfoName"@) {
        Some(p) => p.spec_as_str(),
        None => None,
    }
}

/// What one feature object reads as.
pub open spec fn feature_model(feature: Json) -> Result<EquipmentView, AccessErrorView> {
    match feature.spec_get("properties"@) {
        Some(props) => Ok(
            EquipmentView {
                name: name_of(props),
                category: category_of(props),
                working: working_of(props),
                place: place_of(props),
            },
        ),
        None => Err(AccessErrorView::MissingValue("properties"@, feature.text@)),
    }
}

pub open spec fn parsed_view(r: Result<Equipment, EquipmentAccessError>) -> Result<
    EquipmentView,
    AccessErrorView,
> {
    match r {
        Ok(e) => Ok(e@),
        Err(x) => Err(x@),
    }
}

fn optional_text(v: Option<&Json>) -> (r: Option<String>)
    ensures
        text_of(r) == match v {
            Some(j) => j.spec_as_str(),
            None => None,
        },
{
    match v {
        Some(j) => match j.as_str() {
            Some(s) => Some(s.clone()),
            None => None,
        },
        None => None,
    }
}

/// Reads one feature object into an equipment record.
pub fn parse_equipment(json: &Json) -> (r: Result<Equipment, EquipmentAccessError>)
    ensures
        parsed_view(r) == feature_model(*json),
{
    match json.get("properties") {
        Some(props) => {
            let working = match props.get("isWorking") {
                Some(w) => w.as_bool(),
                None => None,
            };
            let name = match props.get("description") {
                Some(d) => {
                    let inner = match d.get("de") {
                        Some(de) => de,
                        None => d,
                    };
                    match inner.as_str() {
                        Some(s) => if s.as_str().is_empty() {
                            "Cannot find description!".to_owned()
                        } else {
                            s.clone()
                        },
                        None => "Cannot find description!".to_owned(),
                    }
                },
                None => "Cannot find description!".to_owned(),
            };
            let category = match optional_text(props.get("category")) {
                Some(c) => c,
                None => "elevator".to_owned(),
            };
            let place = optional_text(props.get("placeInfoName"));
            Ok(Equipment { name, category, working, place })
        },
        None => Err(EquipmentAccessError::MissingValue("properties".to_owned(), json.text.clone())),
    }
}

/// What `str::to_lowercase` makes of a text.
pub uninterp spec fn lower_of(s: Seq<char>) -> Seq<char>;

/// Relies on str::to_lowercase: the lowercase form of the text, which
/// depends on the characters alone.
#[verifier::external_body]
fn lowercase(s: &str) -> (r: String)
    ensures
        r@ == lower_of(s@),
{
    s.to_lowercase()
}

/// Whether a category names an elevator, ignoring case.
pub open spec fn is_elevator(category: Seq<char>) -> bool {
    lower_of(category) == default_category()
}

/// Whether a category, already in lowercase, is that of an elevator.
pub fn is_elevator_category(lowered: &String) -> (r: bool)
    ensures
        r == (lowered@ == default_category()),
{
    *lowered == "elevator".to_owned()
}

/// The elevators among the features that parse, in their order.
pub open spec fn elevators_of(features: Seq<Json>) -> Seq<EquipmentView>
    decreases features.len(),
{
    if features.len() == 0 {
        Seq::empty()
    } else {
        let rest = elevators_of(features.drop_last());
        match feature_model(features.last()) {
            Ok(e) => if is_elevator(e.category) {
                rest.push(e)
            } else {
                rest
            },
            Err(_) => rest,
        }
    }
}

/// The errors of the features that do not parse, in their order.
pub open spec fn errors_of(features: Seq<Json>) -> Seq<AccessErrorView>
    decreases features.len(),
{
    if features.len() == 0 {
        Seq::empty()
    } else {
        let rest = errors_of(features.drop_last());
        match feature_model(features.last()) {
            Ok(_) => rest,
            Err(x) => rest.push(x),
        }
    }
}

/// What a list of features reads as: the elevators, or, when there are
/// none, every error met on the way.
pub open spec fn list_model(list: Json) -> Result<Seq<EquipmentView>, Seq<AccessErrorView>> {
    match list.spec_as_array() {
        Some(items) => if elevators_of(items).len() == 0 {
            Err(errors_of(items))
        } else {
            Ok(elevators_of(items))
        },
        None => Err(seq![AccessErrorView::InvalidType("Array"@, list.text@)]),
    }
}

pub open spec fn records_view(v: Seq<Equipment>) -> Seq<EquipmentView> {
    v.map_values(|e: Equipment| e@)
}

pub open spec fn errors_view(v: Seq<EquipmentAccessError>) -> Seq<AccessErrorView> {
    v.map_values(|x: EquipmentAccessError| x@)
}

pub open spec fn list_view(r: Result<Vec<Equipment>, Vec<EquipmentAccessError>>) -> Result<
    Seq<EquipmentView>,
    Seq<AccessErrorView>,
> {
    match r {
        Ok(v) => Ok(records_view(v@)),
        Err(x) => Err(errors_view(x@)),
    }
}

/// Reads an array of features and keeps the elevators among them.
pub fn parse_equipment_list(json: &Json) -> (r: Result<Vec<Equipment>, Vec<EquipmentAccessError>>)
    ensures
        list_view(r) == list_model(*json),
{
    match json.as_array() {
        Some(items) => {
            let mut kept: Vec<Equipment> = Vec::new();
            let mut errors: Vec<EquipmentAccessError> = Vec::new();
            let mut i: usize = 0;
            while i < items.len()
                invariant
                    i <= items@.len(),
                    records_view(kept@) == elevators_of(items@.subrange(0, i as int)),
                    errors_view(errors@) == errors_of(items@.subrange(0, i as int)),
                decreases items@.len() - i,
            {
                let ghost seen = items@.subrange(0, i as int + 1);
                assert(seen.drop_last() =~= items@.subrange(0, i as int));
                assert(seen.last() == items@[i as int]);
                match parse_equipment(&items[i]) {
                    Ok(e) => {
                        let lower = lowercase(e.category.as_str());
                        if is_elevator_category(&lower) {
                            proof {
                                assert(records_view(kept@.push(e)) =~= records_view(kept@).push(e@));
                            }
                            kept.push(e);
                        }
                    },
                    Err(x) => {
                        proof {
                            assert(errors_view(errors@.push(x)) =~= errors_view(errors@).push(x@));
                        }
                        errors.push(x);
                    },
                }
                i = i + 1;
            }
            assert(items@.subrange(0, items@.len() as int) =~= items@);
            if kept.len() == 0 {
                Err(errors)
            } else {
                Ok(kept)
            }
        },
        None => {
            let err = EquipmentAccessError::InvalidType {
                expected_type: "Array".to_owned(),
                json: json.text.clone(),
            };
            let errors = vec![err];
            proof {
                assert(errors_view(errors@) =~= seq![err@]);
            }
            Err(errors)
        },
    }
}

/// A feature without a `properties` object is reported as missing that
/// field, together with the feature's text.
pub proof fn missing_properties_is_reported(feature: Json)
    requires
        feature.spec_get("properties"@) is None,
    ensures
        feature_model(feature) == Err::<EquipmentView, AccessErrorView>(
            AccessErrorView::MissingValue("properties"@, feature.text@),
        ),
{
}

proof fn lemma_no_elevators(features: Seq<Json>)
    requires
        forall|i: int|
            0 <= i < features.len() ==> (feature_model(#[trigger] features[i]) matches Ok(e)
                ==> !is_elevator(e.category)),
    ensures
        elevators_of(features).len() == 0,
    decreases features.len(),
{
    if features.len() > 0 {
        let front = features.drop_last();
        assert forall|i: int|
            0 <= i < front.len() ==> (feature_model(#[trigger] front[i]) matches Ok(e)
                ==> !is_elevator(e.category)) by {
            if 0 <= i < front.len() {
                assert(front[i] == features[i]);
            }
        }
        lemma_no_elevators(front);
        assert(features.last() == features[features.len() - 1]);
    }
}

/// A list in which no feature is an elevator fails with the errors of the
/// features that did not parse, even where others parsed.
pub proof fn list_without_elevators_fails(list: Json)
    requires
        list.spec_as_array() is Some,
        forall|i: int|
            0 <= i < list.spec_as_array()->Some_0.len() ==> (feature_model(
                #[trigger] list.spec_as_array()->Some_0[i],
            ) matches Ok(e) ==> !is_elevator(e.category)),
    ensures
        list_model(list) == Err::<Seq<EquipmentView>, Seq<AccessErrorView>>(
            errors_of(list.spec_as_array()->Some_0),
        ),
{
    lemma_no_elevators(list.spec_as_array()->Some_0);
}

/// Every record read from a feature has a name.
pub proof fn parsed_names_are_not_empty(feature: Json)
    requires
        feature_model(feature) is Ok,
    ensures
        feature_model(feature)->Ok_0.name.len() > 0,
{
    reveal_strlit("Cannot find description!");
}

/// Reading the same feature twice gives equal records, or equal errors.
pub proof fn parsing_is_idempotent(
    feature: Json,
    first: Result<Equipment, EquipmentAccessError>,
    second: Result<Equipment, EquipmentAccessError>,
)
    requires
        parsed_view(first) == feature_model(feature),
        parsed_view(second) == feature_model(feature),
    ensures
        parsed_view(first) == parsed_view(second),
{
}

/// The decimal digits of a number.
pub open spec fn decimal(n: nat) -> Seq<char>
    decreases n,
{
    if n < 10 {
        seq![(n + 48) as char]
    } else {
        decimal(n / 10).push(((n % 10) + 48) as char)
    }
}

fn digit_text(d: u64) -> (r: &'static str)
    requires
        d < 10,
    ensures
        r@ == seq![(d + 48) as char],
{
    proof {
        reveal_strlit("0");
        reveal_strlit("1");
        reveal_strlit("2");
        reveal_strlit("3");
        reveal_strlit("4");
        reveal_strlit("5");
        reveal_strlit("6");
        reveal_strlit("7");
        reveal_strlit("8");
        reveal_strlit("9");
    }
    match d {
        0 => "0",
        1 => "1",
        2 => "2",
        3 => "3",
        4 => "4",
        5 => "5",
        6 => "6",
        7 => "7",
        8 => "8",
        _ => "9",
    }
}

/// The decimal text of a number, as in an HTTP status line.
pub fn decimal_text(n: u64) -> (r: String)
    ensures
        r@ == decimal(n as nat),
    decreases n,
{
    if n < 10 {
        digit_text(n).to_owned()
    } else {
        let mut text = decimal_text(n / 10);
        text.append(digit_text(n % 10));
        text
    }
}

/// How an error reads to a person.
pub open spec fn error_message(e: AccessErrorView) -> Seq<char> {
    match e {
        AccessErrorView::MissingValue(field, json) => "Missing value: "@ + field + " in JSON: "@
            + json,
        AccessErrorView::InvalidType(expected, json) => "Expected JSON: "@ + json
            + " to be of type: "@ + expected,
        AccessErrorView::HttpRequest(status, text) => "HTTP request failed, error code: "@
            + decimal(status as nat) + "\n"@ + text,
        AccessErrorView::NotFound(query) => "Could not find elevator: "@ + query,
    }
}

impl EquipmentAccessError {
    /// The error as a line of text.
    pub fn message(&self) -> (r: String)
        ensures
            r@ == error_message(self@),
    {
        match self {
            EquipmentAccessError::MissingValue(field, json) => {
                let mut r = "Missing value: ".to_owned();
                r.append(field.as_str());
                r.append(" in JSON: ");
                r.append(json.as_str());
                r
            },
            EquipmentAccessError::InvalidType { expected_type, json } => {
                let mut r = "Expected JSON: ".to_owned();
                r.append(json.as_str());
                r.append(" to be of type: ");
                r.append(expected_type.as_str());
                r
            },
            EquipmentAccessError::HTTPRequestError { status, response_text } => {
                let mut r = "HTTP request failed, error code: ".to_owned();
                let code = decimal_text(*status as u64);
                r.append(code.as_str());
                r.append("\n");
                r.append(response_text.as_str());
                r
            },
            EquipmentAccessError::CannotFindEquipment { query_text } => {
                let mut r = "Could not find elevator: ".to_owned();
                r.append(query_text.as_str());
                r
            },
        }
    }
}

} // verus!
