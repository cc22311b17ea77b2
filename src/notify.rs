//! What the notifications say: the status counts and headline of the status
//! mail, and the entries that the display lists.
use crate::equipment::{decimal, decimal_text, records_view, Equipment, EquipmentView};
use vstd::prelude::*;

verus! {

/// Where the status and the error mails go, and how to reach the mail server.
pub struct EMailArgs {
    pub status_address: String,
    pub errors_address: String,
    pub smtp_server: String,
    pub smtp_user: String,
    pub smtp_password: String,
}

/// The access point of the e-paper tags and the tags to draw on.
pub struct DisplayArgs {
    pub ap_address: String,
    pub main_tag: String,
    pub secondary_tag: String,
}

/// How many elevators work, are broken, or are of unknown status; a
/// location that failed counts as one unknown.
pub struct StatusCounts {
    pub ok: usize,
    pub failed: usize,
    pub unknown: usize,
}

/// The records whose status is `working`.
pub open spec fn count_status(records: Seq<EquipmentView>, working: Option<bool>) -> nat
    decreases records.len(),
{
    if records.len() == 0 {
        0
    } else {
        count_status(records.drop_last(), working) + if records.last().working == working {
            1nat
        } else {
            0nat
        }
    }
}

proof fn lemma_count_bounded(records: Seq<EquipmentView>, working: Option<bool>)
    ensures
        count_status(records, working) <= records.len(),
    decreases records.len(),
{
    if records.len() > 0 {
        lemma_count_bounded(records.drop_last(), working);
    }
}

fn count_working(records: &Vec<Equipment>, working: Option<bool>) -> (r: usize)
    ensures
        r == count_status(records_view(records@), working),
{
    let ghost all = records_view(records@);
    let mut n: usize = 0;
    let mut i: usize = 0;
    assert(all.subrange(0, 0).len() == 0);
    while i < records.len()
        invariant
            i <= records@.len(),
            all == records_view(records@),
            n == count_status(all.subrange(0, i as int), working),
        decreases records@.len() - i,
    {
        let ghost seen = all.subrange(0, i as int + 1);
        assert(seen.drop_last() =~= all.subrange(0, i as int));
        proof {
            lemma_count_bounded(all.subrange(0, i as int), working);
        }
        if records[i].working == working {
            n = n + 1;
        }
        i = i + 1;
    }
    assert(all.subrange(0, all.len() as int) =~= all);
    n
}

/// Counts the records by status; `failed_locations` locations more are unknown.
pub fn status_counts(records: &Vec<Equipment>, failed_locations: usize) -> (r: StatusCounts)
    requires
        records@.len() + failed_locations <= usize::MAX,
    ensures
        r.ok == count_status(records_view(records@), Some(true)),
        r.failed == count_status(records_view(records@), Some(false)),
        r.unknown == count_status(records_view(records@), None) + failed_locations,
{
    let ok = count_working(records, Some(true));
    let failed = count_working(records, Some(false));
    let unknown = count_working(records, None);
    proof {
        lemma_count_bounded(records_view(records@), None);
    }
    StatusCounts { ok, failed, unknown: unknown + failed_locations }
}

/// The headline of a status mail.
pub enum Verdict {
    /// Nothing broken, some working, some unknown.
    NoneBrokenSomeUnknown,
    /// Nothing known to work or to be broken.
    AllUnknown,
    /// Everything works.
    AllWorking,
    /// At least one elevator is broken.
    SomeBroken,
}

pub open spec fn verdict_of(c: StatusCounts) -> Verdict {
    if c.failed > 0 {
        Verdict::SomeBroken
    } else if c.ok > 0 && c.unknown > 0 {
        Verdict::NoneBrokenSomeUnknown
    } else if c.ok == 0 {
        Verdict::AllUnknown
    } else {
        Verdict::AllWorking
    }
}

pub fn verdict(c: &StatusCounts) -> (r: Verdict)
    ensures
        r == verdict_of(*c),
{
    if c.failed > 0 {
        Verdict::SomeBroken
    } else if c.ok > 0 && c.unknown > 0 {
        Verdict::NoneBrokenSomeUnknown
    } else if c.ok == 0 {
        Verdict::AllUnknown
    } else {
        Verdict::AllWorking
    }
}

impl Verdict {
    pub open spec fn spec_message(self) -> Seq<char> {
        match self {
            Verdict::NoneBrokenSomeUnknown => "Kein defekter Aufzug (einige Unbekannt)!"@,
            Verdict::AllUnknown => "Warnung: Aufzugstatus unbekannt!"@,
            Verdict::AllWorking => "Alle Aufzüge funktionieren!"@,
            Verdict::SomeBroken => "Achtung: Defekter Aufzug auf dem Weg!"@,
        }
    }

    /// The words of the headline.
    pub fn message(&self) -> (r: &'static str)
        ensures
            r@ == self.spec_message(),
    {
        match self {
            Verdict::NoneBrokenSomeUnknown => "Kein defekter Aufzug (einige Unbekannt)!",
            Verdict::AllUnknown => "Warnung: Aufzugstatus unbekannt!",
            Verdict::AllWorking => "Alle Aufzüge funktionieren!",
            Verdict::SomeBroken => "Achtung: Defekter Aufzug auf dem Weg!",
        }
    }
}

/// The marks before the headline: broken, working, unknown, each shown
/// only where its count is not zero.
pub fn status_marks(c: &StatusCounts) -> (r: (&'static str, &'static str, &'static str))
    ensures
        r.0@ == (if c.failed > 0 { "⛔"@ } else { ""@ }),
        r.1@ == (if c.ok > 0 { "✅"@ } else { ""@ }),
        r.2@ == (if c.unknown > 0 { "❔"@ } else { ""@ }),
{
    let failed = if c.failed > 0 { "⛔" } else { "" };
    let ok = if c.ok > 0 { "✅" } else { "" };
    let unknown = if c.unknown > 0 { "❔" } else { "" };
    (failed, ok, unknown)
}

pub open spec fn mark(count: usize, symbol: Seq<char>) -> Seq<char> {
    if count > 0 {
        symbol
    } else {
        Seq::empty()
    }
}

/// The subject of the status mail: the marks, then the headline.
pub fn status_subject(c: &StatusCounts) -> (r: String)
    ensures
        r@ == mark(c.failed, "⛔"@) + mark(c.ok, "✅"@) + mark(c.unknown, "❔"@) + " "@
            + verdict_of(*c).spec_message(),
{
    proof {
        reveal_strlit("");
    }
    let (failed, ok, unknown) = status_marks(c);
    let mut r = failed.to_owned();
    r.append(ok);
    r.append(unknown);
    r.append(" ");
    r.append(verdict(c).message());
    r
}

/// The subject of the mail that lists the errors.
pub fn errors_subject(count: usize) -> (r: String)
    ensures
        r@ == decimal(count as nat) + " Errors encountered when checking elevator status"@,
{
    let mut r = decimal_text(count as u64);
    r.append(" Errors encountered when checking elevator status");
    r
}

/// An elevator that the display lists as out of order.
pub struct BrokenEntry {
    pub name: String,
    pub place: String,
}

/// The records known to be broken, in order, as name and place (an empty
/// place where none is known). A record of unknown status is not listed.
pub open spec fn broken_of(records: Seq<EquipmentView>) -> Seq<(Seq<char>, Seq<char>)>
    decreases records.len(),
{
    if records.len() == 0 {
        Seq::empty()
    } else {
        let rest = broken_of(records.drop_last());
        let e = records.last();
        if e.working != Some(false) {
            rest
        } else {
            rest.push(
                (
                    e.name,
                    match e.place {
                        Some(p) => p,
                        None => Seq::empty(),
                    },
                ),
            )
        }
    }
}

pub open spec fn entries_view(v: Seq<BrokenEntry>) -> Seq<(Seq<char>, Seq<char>)> {
    v.map_values(|b: BrokenEntry| (b.name@, b.place@))
}

/// The entries that the display shows.
pub fn broken_entries(records: &Vec<Equipment>) -> (r: Vec<BrokenEntry>)
    ensures
        entries_view(r@) == broken_of(records_view(records@)),
{
    let ghost all = records_view(records@);
    let mut out: Vec<BrokenEntry> = Vec::new();
    let mut i: usize = 0;
    assert(all.subrange(0, 0).len() == 0);
    assert(entries_view(out@) =~= Seq::empty());
    while i < records.len()
        invariant
            i <= records@.len(),
            all == records_view(records@),
            entries_view(out@) == broken_of(all.subrange(0, i as int)),
        decreases records@.len() - i,
    {
        let ghost seen = all.subrange(0, i as int + 1);
        assert(seen.drop_last() =~= all.subrange(0, i as int));
        assert(seen.last() == records@[i as int]@);
        let e = &records[i];
        if e.working == Some(false) {
            let place = match &e.place {
                Some(p) => p.clone(),
                None => String::new(),
            };
            let entry = BrokenEntry { name: e.name.clone(), place };
            proof {
                assert(entries_view(out@.push(entry)) =~= entries_view(out@).push(
                    (entry.name@, entry.place@),
                ));
            }
            out.push(entry);
        }
        i = i + 1;
    }
    assert(all.subrange(0, all.len() as int) =~= all);
    out
}

} // verus!
