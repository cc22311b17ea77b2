//! Resolution of the search labels of each location, and of all locations
//! together.
use crate::equipment::{
    error_message,
    list_model,
    parse_equipment_list,
    records_view,
    errors_view,
    text_of,
    AccessErrorView,
    Equipment,
    EquipmentAccessError,
    EquipmentView,
};
use crate::json::Json;
use vstd::prelude::*;

verus! {

/// Why one location contributed no records.
pub enum GroupError {
    /// A single failure of the location as a whole.
    Access(EquipmentAccessError),
    /// No elevator came out of the features; every error met while reading them.
    Sourcing(Vec<EquipmentAccessError>),
    /// The request failed on the way, or the body is not JSON: the
    /// description of that failure.
    Unreadable(String),
}

pub ghost enum GroupErrorView {
    Access(AccessErrorView),
    Sourcing(Seq<AccessErrorView>),
    Unreadable(Seq<char>),
}

impl View for GroupError {
    type V = GroupErrorView;

    open spec fn view(&self) -> GroupErrorView {
        match self {
            GroupError::Access(x) => GroupErrorView::Access(x@),
            GroupError::Sourcing(xs) => GroupErrorView::Sourcing(errors_view(xs@)),
            GroupError::Unreadable(text) => GroupErrorView::Unreadable(text@),
        }
    }
}

/// An HTTP status in the success class.
pub open spec fn is_success(status: u16) -> bool {
    200 <= status && status < 300
}

/// Passes the body of a successful response on, and turns any other status
/// into an error that keeps the status and the body.
pub fn check_status(status: u16, response_text: String) -> (r: Result<String, GroupError>)
    ensures
        is_success(status) ==> r == Ok::<String, GroupError>(response_text),
        !is_success(status) ==> (r matches Err(e) && e@ == GroupErrorView::Access(
            AccessErrorView::HttpRequest(status, response_text@),
        )),
{
    if 200 <= status && status < 300 {
        Ok(response_text)
    } else {
        Err(GroupError::Access(EquipmentAccessError::HTTPRequestError { status, response_text }))
    }
}

/// What a decoded response reads as, given its raw body.
pub open spec fn group_model(body: Seq<char>, doc: Json) -> Result<
    Seq<EquipmentView>,
    GroupErrorView,
> {
    match doc.spec_get("features"@) {
        Some(features) => match list_model(features) {
            Ok(records) => Ok(records),
            Err(errors) => Err(GroupErrorView::Sourcing(errors)),
        },
        None => Err(GroupErrorView::Access(AccessErrorView::MissingValue(""@, body))),
    }
}

pub open spec fn group_view(r: Result<Vec<Equipment>, GroupError>) -> Result<
    Seq<EquipmentView>,
    GroupErrorView,
> {
    match r {
        Ok(v) => Ok(records_view(v@)),
        Err(e) => Err(e@),
    }
}

/// Reads the elevators out of one location's decoded response.
pub fn parse_group(body: &str, doc: &Json) -> (r: Result<Vec<Equipment>, GroupError>)
    ensures
        group_view(r) == group_model(body@, *doc),
{
    match doc.get("features") {
        Some(features) => match parse_equipment_list(features) {
            Ok(records) => Ok(records),
            Err(errors) => Err(GroupError::Sourcing(errors)),
        },
        None => Err(
            GroupError::Access(EquipmentAccessError::MissingValue("".to_owned(), body.to_owned())),
        ),
    }
}

/// The first record with the given name.
pub open spec fn find_named(records: Seq<EquipmentView>, name: Seq<char>) -> Option<EquipmentView>
    decreases records.len(),
{
    if records.len() == 0 {
        None
    } else if records[0].name == name {
        Some(records[0])
    } else {
        find_named(records.drop_first(), name)
    }
}

/// The records that the labels resolve to, given the best-matching name
/// found for each label; the first label that resolves to nothing, if any.
pub open spec fn selection(
    records: Seq<EquipmentView>,
    labels: Seq<Seq<char>>,
    best: Seq<Option<Seq<char>>>,
) -> Result<Seq<EquipmentView>, Seq<char>>
    decreases labels.len(),
{
    if labels.len() == 0 {
        Ok(Seq::empty())
    } else {
        let last = labels.len() - 1;
        match selection(records, labels.drop_last(), best) {
            Err(label) => Err(label),
            Ok(found) => {
                let hit = match best[last] {
                    Some(name) => find_named(records, name),
                    None => None,
                };
                match hit {
                    Some(e) => Ok(found.push(e)),
                    None => Err(labels[last]),
                }
            },
        }
    }
}

pub open spec fn labels_view(v: Seq<String>) -> Seq<Seq<char>> {
    v.map_values(|s: String| s@)
}

pub open spec fn matches_view(v: Seq<Option<String>>) -> Seq<Option<Seq<char>>> {
    v.map_values(|m: Option<String>| text_of(m))
}

/// What a group's labels resolve to, as a group outcome.
pub open spec fn selection_model(
    records: Seq<EquipmentView>,
    labels: Seq<Seq<char>>,
    best: Seq<Option<Seq<char>>>,
) -> Result<Seq<EquipmentView>, GroupErrorView> {
    match selection(records, labels, best) {
        Ok(found) => Ok(found),
        Err(label) => Err(GroupErrorView::Access(AccessErrorView::NotFound(label))),
    }
}

/// The position of the first record with the given name.
fn position_named(records: &Vec<Equipment>, name: &String) -> (r: Option<usize>)
    ensures
        r matches Some(i) ==> i < records@.len() && find_named(records_view(records@), name@)
            == Some(records@[i as int]@),
        r is None ==> find_named(records_view(records@), name@) is None,
{
    let ghost all = records_view(records@);
    let mut i: usize = 0;
    assert(all.subrange(0, all.len() as int) =~= all);
    while i < records.len()
        invariant
            i <= records@.len(),
            all == records_view(records@),
            find_named(all.subrange(i as int, all.len() as int), name@) == find_named(all, name@),
        decreases records@.len() - i,
    {
        let ghost rest = all.subrange(i as int, all.len() as int);
        assert(rest.drop_first() =~= all.subrange(i + 1, all.len() as int));
        assert(rest[0] == records@[i as int]@);
        if records[i].name == *name {
            return Some(i);
        }
        i = i + 1;
    }
    assert(all.subrange(i as int, all.len() as int) =~= Seq::empty());
    None
}

/// Resolves each label, in order, to the record whose name is the best
/// match found for it; fails on the first label without one.
pub fn select_matches(
    records: &Vec<Equipment>,
    labels: &Vec<String>,
    best: &Vec<Option<String>>,
) -> (r: Result<Vec<Equipment>, GroupError>)
    requires
        best@.len() == labels@.len(),
    ensures
        group_view(r) == selection_model(
            records_view(records@),
            labels_view(labels@),
            matches_view(best@),
        ),
{
    let ghost recs = records_view(records@);
    let ghost bs = matches_view(best@);
    let mut found: Vec<Equipment> = Vec::new();
    let mut i: usize = 0;
    assert(labels_view(labels@).subrange(0, 0).len() == 0);
    assert(records_view(found@) =~= Seq::empty());
    while i < labels.len()
        invariant
            i <= labels@.len(),
            best@.len() == labels@.len(),
            recs == records_view(records@),
            bs == matches_view(best@),
            selection(recs, labels_view(labels@).subrange(0, i as int), bs) == Ok::<
                Seq<EquipmentView>,
                Seq<char>,
            >(records_view(found@)),
        decreases labels@.len() - i,
    {
        let ghost prefix = labels_view(labels@).subrange(0, i as int + 1);
        assert(prefix.drop_last() =~= labels_view(labels@).subrange(0, i as int));
        assert(prefix[i as int] == labels@[i as int]@);
        assert(bs[i as int] == text_of(best@[i as int]));
        let hit = match &best[i] {
            Some(name) => position_named(records, name),
            None => None,
        };
        match hit {
            Some(k) => {
                let e = records[k].duplicate();
                proof {
                    assert(records_view(found@.push(e)) =~= records_view(found@).push(e@));
                }
                found.push(e);
            },
            None => {
                proof {
                    let all = labels_view(labels@);
                    lemma_selection_stops(recs, all, bs, i as int + 1);
                    assert(all.subrange(0, all.len() as int) =~= all);
                }
                return Err(
                    GroupError::Access(
                        EquipmentAccessError::CannotFindEquipment { query_text: labels[i].clone() },
                    ),
                );
            },
        }
        i = i + 1;
    }
    assert(labels_view(labels@).subrange(0, labels@.len() as int) =~= labels_view(labels@));
    Ok(found)
}

/// Once a prefix of the labels fails, every longer prefix fails on the same label.
proof fn lemma_selection_stops(
    records: Seq<EquipmentView>,
    labels: Seq<Seq<char>>,
    best: Seq<Option<Seq<char>>>,
    n: int,
)
    requires
        0 <= n <= labels.len(),
        selection(records, labels.subrange(0, n), best) is Err,
    ensures
        selection(records, labels, best) == selection(records, labels.subrange(0, n), best),
    decreases labels.len() - n,
{
    if n < labels.len() {
        let longer = labels.subrange(0, n + 1);
        assert(longer.drop_last() =~= labels.subrange(0, n));
        lemma_selection_stops(records, labels, best, n + 1);
    } else {
        assert(labels.subrange(0, n) =~= labels);
    }
}

proof fn lemma_selection_prefix_ok(
    records: Seq<EquipmentView>,
    labels: Seq<Seq<char>>,
    best: Seq<Option<Seq<char>>>,
    n: int,
)
    requires
        0 <= n <= labels.len(),
        forall|i: int|
            0 <= i < n ==> (#[trigger] best[i] matches Some(name) && find_named(records, name)
                is Some),
    ensures
        selection(records, labels.subrange(0, n), best) is Ok,
    decreases n,
{
    if n > 0 {
        let prefix = labels.subrange(0, n);
        assert(prefix.drop_last() =~= labels.subrange(0, n - 1));
        lemma_selection_prefix_ok(records, labels, best, n - 1);
        assert(best[n - 1] matches Some(name) && find_named(records, name) is Some);
    }
}

/// A label for which no name cleared the similarity threshold fails its
/// location with that label, once every label before it has resolved.
pub proof fn unmatched_label_fails_group(
    records: Seq<EquipmentView>,
    labels: Seq<Seq<char>>,
    best: Seq<Option<Seq<char>>>,
    k: int,
)
    requires
        best.len() == labels.len(),
        0 <= k < labels.len(),
        best[k] is None,
        forall|i: int|
            0 <= i < k ==> (#[trigger] best[i] matches Some(name) && find_named(records, name)
                is Some),
    ensures
        selection_model(records, labels, best) == Err::<Seq<EquipmentView>, GroupErrorView>(
            GroupErrorView::Access(AccessErrorView::NotFound(labels[k])),
        ),
{
    lemma_selection_prefix_ok(records, labels, best, k);
    let prefix = labels.subrange(0, k + 1);
    assert(prefix.drop_last() =~= labels.subrange(0, k));
    assert(prefix[k] == labels[k]);
    lemma_selection_stops(records, labels, best, k + 1);
}

pub open spec fn outcomes_view(v: Seq<Result<Vec<Equipment>, GroupError>>) -> Seq<
    Result<Seq<EquipmentView>, GroupErrorView>,
> {
    v.map_values(|o: Result<Vec<Equipment>, GroupError>| group_view(o))
}

pub open spec fn group_errors_view(v: Seq<GroupError>) -> Seq<GroupErrorView> {
    v.map_values(|e: GroupError| e@)
}

/// The records of the locations that resolved, location by location.
pub open spec fn merged_records(outcomes: Seq<Result<Seq<EquipmentView>, GroupErrorView>>) -> Seq<
    EquipmentView,
>
    decreases outcomes.len(),
{
    if outcomes.len() == 0 {
        Seq::empty()
    } else {
        let rest = merged_records(outcomes.drop_last());
        match outcomes.last() {
            Ok(records) => rest + records,
            Err(_) => rest,
        }
    }
}

/// The failure of each location that did not resolve, in location order.
pub open spec fn merged_errors(outcomes: Seq<Result<Seq<EquipmentView>, GroupErrorView>>) -> Seq<
    GroupErrorView,
>
    decreases outcomes.len(),
{
    if outcomes.len() == 0 {
        Seq::empty()
    } else {
        let rest = merged_errors(outcomes.drop_last());
        match outcomes.last() {
            Ok(_) => rest,
            Err(e) => rest.push(e),
        }
    }
}

/// Splits the outcomes of all locations into every record found and every
/// location's failure, keeping the order of the locations.
pub fn merge_outcomes(outcomes: Vec<Result<Vec<Equipment>, GroupError>>) -> (r: (
    Vec<Equipment>,
    Vec<GroupError>,
))
    ensures
        records_view(r.0@) == merged_records(outcomes_view(outcomes@)),
        group_errors_view(r.1@) == merged_errors(outcomes_view(outcomes@)),
{
    let ghost all = outcomes_view(outcomes@);
    let mut rest = outcomes;
    let mut records: Vec<Equipment> = Vec::new();
    let mut errors: Vec<GroupError> = Vec::new();
    let ghost mut done: int = 0;
    assert(all.subrange(0, 0).len() == 0);
    assert(records_view(records@) =~= Seq::empty());
    assert(group_errors_view(errors@) =~= Seq::empty());
    assert(outcomes_view(rest@) =~= all.subrange(0, all.len() as int));
    while rest.len() > 0
        invariant
            0 <= done <= all.len(),
            outcomes_view(rest@) =~= all.subrange(done, all.len() as int),
            records_view(records@) == merged_records(all.subrange(0, done)),
            group_errors_view(errors@) == merged_errors(all.subrange(0, done)),
        decreases rest@.len(),
    {
        let ghost before = rest@;
        let outcome = rest.remove(0);
        proof {
            assert(outcomes_view(before).len() == before.len());
            assert(done < all.len());
            assert(outcomes_view(before)[0] == all.subrange(done, all.len() as int)[0]);
            assert(all.subrange(done, all.len() as int)[0] == all[done]);
            assert(outcomes_view(before)[0] == all[done]);
            assert(outcomes_view(rest@) =~= outcomes_view(before).drop_first());
            let seen = all.subrange(0, done + 1);
            assert(seen.drop_last() =~= all.subrange(0, done));
            assert(seen.last() == all[done]);
        }
        match outcome {
            Ok(mut found) => {
                let ghost old_records = records@;
                let ghost found_v = found@;
                records.append(&mut found);
                proof {
                    assert(records_view(records@) =~= records_view(old_records) + records_view(
                        found_v,
                    ));
                }
            },
            Err(e) => {
                proof {
                    assert(group_errors_view(errors@.push(e)) =~= group_errors_view(errors@).push(
                        e@,
                    ));
                }
                errors.push(e);
            },
        }
        proof {
            done = done + 1;
        }
    }
    assert(all.subrange(0, all.len() as int) =~= all);
    (records, errors)
}

/// Batch isolation: the outcome of one group of locations never changes
/// what another contributes; merging a batch that is cut in two parts
/// yields the records and the failures of each part, one after the other.
pub proof fn batch_isolation(
    first: Seq<Result<Seq<EquipmentView>, GroupErrorView>>,
    second: Seq<Result<Seq<EquipmentView>, GroupErrorView>>,
)
    ensures
        merged_records(first + second) == merged_records(first) + merged_records(second),
        merged_errors(first + second) == merged_errors(first) + merged_errors(second),
    decreases second.len(),
{
    if second.len() == 0 {
        assert(first + second =~= first);
        assert(merged_records(second) =~= Seq::empty());
        assert(merged_errors(second) =~= Seq::empty());
        assert(merged_records(first) + Seq::<EquipmentView>::empty() =~= merged_records(first));
        assert(merged_errors(first) + Seq::<GroupErrorView>::empty() =~= merged_errors(first));
    } else {
        let whole = first + second;
        assert(whole.drop_last() =~= first + second.drop_last());
        assert(whole.last() == second.last());
        batch_isolation(first, second.drop_last());
        match second.last() {
            Ok(records) => {
                assert(merged_records(first) + merged_records(second.drop_last()) + records
                    =~= merged_records(first) + (merged_records(second.drop_last()) + records));
            },
            Err(e) => {
                assert((merged_errors(first) + merged_errors(second.drop_last())).push(e)
                    =~= merged_errors(first) + merged_errors(second.drop_last()).push(e));
            },
        }
    }
}

/// A failing location between two that resolve: the records of the other
/// two, in order, and exactly the one failure.
pub proof fn failing_group_is_isolated(
    before: Seq<EquipmentView>,
    failure: GroupErrorView,
    after: Seq<EquipmentView>,
)
    ensures
        merged_records(seq![Ok(before), Err(failure), Ok(after)]) == before + after,
        merged_errors(seq![Ok(before), Err(failure), Ok(after)]) == seq![failure],
{
    let s: Seq<Result<Seq<EquipmentView>, GroupErrorView>> = seq![Ok(before), Err(failure), Ok(after)];
    assert(s.drop_last() =~= seq![Ok(before), Err(failure)]);
    assert(s.drop_last().drop_last() =~= seq![Ok(before)]);
    assert(s.drop_last().drop_last().drop_last() =~= Seq::empty());
    reveal_with_fuel(merged_records, 4);
    reveal_with_fuel(merged_errors, 4);
    assert(Seq::<EquipmentView>::empty() + before =~= before);
    assert(Seq::<GroupErrorView>::empty().push(failure) =~= seq![failure]);
}

/// Each error's text on a line of its own, each line preceded by a break.
pub open spec fn joined_messages(errors: Seq<AccessErrorView>) -> Seq<char>
    decreases errors.len(),
{
    if errors.len() == 0 {
        Seq::empty()
    } else {
        joined_messages(errors.drop_last()) + "\n"@ + error_message(errors.last())
    }
}

/// How a location's failure reads to a person.
pub open spec fn group_message(e: GroupErrorView) -> Seq<char> {
    match e {
        GroupErrorView::Access(x) => error_message(x),
        GroupErrorView::Sourcing(errors) => "Errors encountered when sourcing equipments:\n"@
            + joined_messages(errors),
        GroupErrorView::Unreadable(text) => text,
    }
}

impl GroupError {
    /// The failure as text.
    pub fn message(&self) -> (r: String)
        ensures
            r@ == group_message(self@),
    {
        match self {
            GroupError::Access(x) => x.message(),
            GroupError::Sourcing(errors) => {
                let ghost all = errors_view(errors@);
                let mut r = "Errors encountered when sourcing equipments:\n".to_owned();
                let ghost head = r@;
                let mut i: usize = 0;
                assert(all.subrange(0, 0).len() == 0);
                assert(r@ =~= head + joined_messages(all.subrange(0, 0)));
                while i < errors.len()
                    invariant
                        i <= errors@.len(),
                        all == errors_view(errors@),
                        head == "Errors encountered when sourcing equipments:\n"@,
                        r@ == head + joined_messages(all.subrange(0, i as int)),
                    decreases errors@.len() - i,
                {
                    let ghost seen = all.subrange(0, i as int + 1);
                    assert(seen.drop_last() =~= all.subrange(0, i as int));
                    assert(seen.last() == errors@[i as int]@);
                    let line = errors[i].message();
                    r.append("\n");
                    r.append(line.as_str());
                    assert(r@ =~= head + joined_messages(seen));
                    i = i + 1;
                }
                assert(all.subrange(0, all.len() as int) =~= all);
                r
            },
            GroupError::Unreadable(text) => text.clone(),
        }
    }
}

} // verus!
