//! Validation, normalization and classification of domain indicators.
pub mod allowlist;
pub mod cli;
pub mod domain;
pub mod error;
pub mod report;
pub mod text;

use vstd::prelude::*;
use crate::allowlist::Allowlist;
use crate::domain::{
    is_valid_domain, lemma_allowlisted_record_not_suspicious, lemma_record_validity, suspicion,
    classified, csv_fields, normalize_spec, parse_csv_line, process_line, DomainRecord,
    DomainStatus,
};
use crate::error::domain_error_message;
use crate::text::{chars_of, owned_text, split_chars, split_on, string_from_range, texts_of, trim_spec, trim_str};

verus! {

/// The data lines of an input file: every line (lines end at '\n') after the first,
/// which is the header, trimmed, leaving out those that trim to the empty text.
pub open spec fn data_lines(content: Seq<char>) -> Seq<Seq<char>> {
    kept_lines(split_on(content, '\n').drop_first())
}

/// The trimmed lines that are not empty, in order.
pub open spec fn kept_lines(lines: Seq<Seq<char>>) -> Seq<Seq<char>>
    decreases lines.len(),
{
    if lines.len() == 0 {
        Seq::<Seq<char>>::empty()
    } else if trim_spec(lines.last()).len() > 0 {
        kept_lines(lines.drop_last()).push(trim_spec(lines.last()))
    } else {
        kept_lines(lines.drop_last())
    }
}

/// The record that `run` makes of one (trimmed, non-empty) data line: a line that is not
/// valid CSV is rejected as a whole with source "unknown"; otherwise its domain field is
/// classified by `process_line`.
pub open spec fn record_for_line(rec: DomainRecord, line: Seq<char>, allowlist: Set<Seq<char>>) -> bool {
    match csv_fields(line) {
        Err(e) => {
            &&& rec.original@ == line
            &&& rec.source@ == "unknown"@
            &&& rec.status == DomainStatus::Rejected
            &&& rec.normalized is None
            &&& rec.reason@ == "Malformed CSV line: "@ + domain_error_message(e)
        },
        Ok((d, s)) => {
            &&& rec.original@ == d
            &&& rec.source@ == s
            &&& classified(rec, normalize_spec(d), allowlist)
        },
    }
}

/// Processes the contents of an input file: skips the header line and blank lines,
/// and makes one record of each remaining line, in order.
pub fn process_input(content: &str, allowlist: &Allowlist) -> (records: Vec<DomainRecord>)
    ensures
        records.len() == data_lines(content@).len(),
        forall|i: int|
            0 <= i < records.len() ==> record_for_line(
                #[trigger] records@[i],
                data_lines(content@)[i],
                allowlist@,
            ),
        forall|i: int|
            0 <= i < records.len() ==> (csv_fields(#[trigger] data_lines(content@)[i]) matches Ok(
                (d, s),
            ) ==> {
                &&& records@[i].original@ == d
                &&& records@[i].source@ == s
                &&& allowlist@.contains(normalize_spec(d)) && is_valid_domain(normalize_spec(d))
                    ==> records@[i].status == DomainStatus::Accepted && records@[i].reason@
                    == Seq::<char>::empty()
                &&& !is_valid_domain(normalize_spec(d)) ==> records@[i].status
                    == DomainStatus::Rejected
            }),
{
    let chars = chars_of(content);
    let lines = split_chars(&chars, '\n');
    let ghost ls = split_on(content@, '\n');
    let ghost body = ls.drop_first();
    let mut records: Vec<DomainRecord> = Vec::new();
    let mut k: usize = 1;
    proof {
        crate::text::lemma_split_on_nonempty(content@, '\n');
        assert(body.take(0) =~= Seq::<Seq<char>>::empty());
    }
    while k < lines.len()
        invariant
            texts_of(lines@) == ls,
            body == ls.drop_first(),
            1 <= k <= lines.len(),
            records.len() == kept_lines(body.take(k - 1)).len(),
            forall|i: int|
                0 <= i < records.len() ==> record_for_line(
                    #[trigger] records@[i],
                    kept_lines(body.take(k - 1))[i],
                    allowlist@,
                ),
        decreases lines.len() - k,
    {
        let line = &lines[k];
        let text = string_from_range(line, 0, line.len());
        assert(line@.subrange(0, line.len() as int) == line@);
        let trimmed = trim_str(text.as_str());
        let ghost prev = kept_lines(body.take(k - 1));
        assert(body.take(k as int).drop_last() == body.take(k - 1));
        assert(body.take(k as int).last() == ls[k as int]);
        assert(text@ == ls[k as int]);
        if !trimmed.is_empty() {
            let rec = match parse_csv_line(trimmed) {
                Err(reason) => {
                    let mut why = owned_text("Malformed CSV line: ");
                    let detail = reason.to_string();
                    why.append(detail.as_str());
                    DomainRecord::rejected(owned_text(trimmed), owned_text("unknown"), why)
                },
                Ok((domain, source)) => process_line(domain, source, allowlist),
            };
            proof {
                crate::text::lemma_trim_idempotent(ls[k as int]);
            }
            records.push(rec);
            assert(kept_lines(body.take(k as int)) == prev.push(trimmed@));
            assert forall|i: int| 0 <= i < records.len() implies record_for_line(
                #[trigger] records@[i],
                kept_lines(body.take(k as int))[i],
                allowlist@,
            ) by {
            }
        }
        k = k + 1;
    }
    assert(body.take(k - 1) == body);
    proof {
        assert forall|i: int|
            0 <= i < records.len() implies (csv_fields(#[trigger] data_lines(content@)[i]) matches Ok(
            (d, s),
        ) ==> {
            &&& records@[i].original@ == d
            &&& records@[i].source@ == s
            &&& allowlist@.contains(normalize_spec(d)) && is_valid_domain(normalize_spec(d))
                ==> records@[i].status == DomainStatus::Accepted && records@[i].reason@
                == Seq::<char>::empty()
            &&& !is_valid_domain(normalize_spec(d)) ==> records@[i].status
                == DomainStatus::Rejected
        }) by {
            lemma_line_record_classification(records@[i], data_lines(content@)[i], allowlist@);
        }
    }
    records
}

/// The record of a well-formed data line keeps its domain and source fields, and is
/// classified against the given allowlist: when the normalized domain is valid and in
/// the allowlist the record is accepted with an empty reason; when it is invalid the
/// record is rejected.
pub proof fn lemma_line_record_classification(
    rec: DomainRecord,
    line: Seq<char>,
    allowlist: Set<Seq<char>>,
)
    requires
        record_for_line(rec, line, allowlist),
    ensures
        csv_fields(line) matches Ok((d, s)) ==> {
            &&& rec.original@ == d
            &&& rec.source@ == s
            &&& allowlist.contains(normalize_spec(d)) && is_valid_domain(normalize_spec(d))
                ==> rec.status == DomainStatus::Accepted && rec.reason@ == Seq::<char>::empty()
            &&& !is_valid_domain(normalize_spec(d)) ==> rec.status == DomainStatus::Rejected
        },
{
    if let Ok((d, s)) = csv_fields(line) {
        let n = normalize_spec(d);
        lemma_record_validity(rec, n, allowlist);
        if allowlist.contains(n) {
            lemma_allowlisted_record_not_suspicious(rec, n, allowlist);
            if is_valid_domain(n) {
                crate::domain::lemma_validation_error_none_iff_valid(n);
                assert(suspicion(n, allowlist) is None);
            }
        }
    }
}

/// Number of records with the given status.
pub open spec fn status_count(records: Seq<DomainRecord>, status: DomainStatus) -> nat
    decreases records.len(),
{
    if records.len() == 0 {
        0
    } else {
        status_count(records.drop_last(), status) + if records.last().status == status {
            1nat
        } else {
            0nat
        }
    }
}

/// Number of records that are not rejected.
pub open spec fn not_rejected_count(records: Seq<DomainRecord>) -> nat
    decreases records.len(),
{
    if records.len() == 0 {
        0
    } else {
        not_rejected_count(records.drop_last()) + if records.last().status
            != DomainStatus::Rejected {
            1nat
        } else {
            0nat
        }
    }
}

/// A record accepted because of (or despite) its normalized domain being allowlisted.
pub open spec fn is_allowlisted_record(rec: DomainRecord, allowlist: Set<Seq<char>>) -> bool {
    rec.normalized matches Some(n) && allowlist.contains(n@) && rec.status == DomainStatus::Accepted
}

/// Number of accepted records whose normalized domain is allowlisted.
pub open spec fn allowlisted_count(records: Seq<DomainRecord>, allowlist: Set<Seq<char>>) -> nat
    decreases records.len(),
{
    if records.len() == 0 {
        0
    } else {
        allowlisted_count(records.drop_last(), allowlist) + if is_allowlisted_record(
            records.last(),
            allowlist,
        ) {
            1nat
        } else {
            0nat
        }
    }
}

/// Number of records with the given status.
pub fn count_with_status(records: &Vec<DomainRecord>, status: DomainStatus) -> (n: usize)
    ensures
        n == status_count(records@, status),
{
    let mut n: usize = 0;
    let mut i: usize = 0;
    while i < records.len()
        invariant
            i <= records.len(),
            n <= i,
            n == status_count(records@.take(i as int), status),
        decreases records.len() - i,
    {
        assert(records@.take(i + 1).drop_last() == records@.take(i as int));
        if records[i].status == status {
            n = n + 1;
        }
        i = i + 1;
    }
    assert(records@.take(records.len() as int) == records@);
    n
}

/// Number of records that are not rejected (the valid domains).
pub fn count_not_rejected(records: &Vec<DomainRecord>) -> (n: usize)
    ensures
        n == not_rejected_count(records@),
{
    let mut n: usize = 0;
    let mut i: usize = 0;
    while i < records.len()
        invariant
            i <= records.len(),
            n <= i,
            n == not_rejected_count(records@.take(i as int)),
        decreases records.len() - i,
    {
        assert(records@.take(i + 1).drop_last() == records@.take(i as int));
        if records[i].status != DomainStatus::Rejected {
            n = n + 1;
        }
        i = i + 1;
    }
    assert(records@.take(records.len() as int) == records@);
    n
}

/// Number of accepted records whose normalized domain is in the allowlist.
pub fn count_allowlisted(records: &Vec<DomainRecord>, allowlist: &Allowlist) -> (n: usize)
    ensures
        n == allowlisted_count(records@, allowlist@),
{
    let mut n: usize = 0;
    let mut i: usize = 0;
    while i < records.len()
        invariant
            i <= records.len(),
            n <= i,
            n == allowlisted_count(records@.take(i as int), allowlist@),
        decreases records.len() - i,
    {
        assert(records@.take(i + 1).drop_last() == records@.take(i as int));
        let hit = match &records[i].normalized {
            Some(norm) => allowlist.contains(norm.as_str()) && records[i].status
                == DomainStatus::Accepted,
            None => false,
        };
        if hit {
            n = n + 1;
        }
        i = i + 1;
    }
    assert(records@.take(records.len() as int) == records@);
    n
}

/// Every record is counted exactly once among accepted, suspicious and rejected, and
/// the valid (not rejected) and invalid counts add up to the number of records.
pub proof fn lemma_counts_partition(records: Seq<DomainRecord>)
    ensures
        status_count(records, DomainStatus::Accepted) + status_count(records, DomainStatus::Suspicious)
            + status_count(records, DomainStatus::Rejected) == records.len(),
        not_rejected_count(records) + status_count(records, DomainStatus::Rejected) == records.len(),
        not_rejected_count(records) == status_count(records, DomainStatus::Accepted) + status_count(
            records,
            DomainStatus::Suspicious,
        ),
    decreases records.len(),
{
    if records.len() > 0 {
        lemma_counts_partition(records.drop_last());
    }
}

/// Adding a record adds one to the allowlisted count exactly when the record is accepted
/// and its normalized domain (not its original text) is in the allowlist.
pub proof fn lemma_allowlisted_count_push(
    records: Seq<DomainRecord>,
    rec: DomainRecord,
    allowlist: Set<Seq<char>>,
)
    ensures
        allowlisted_count(records.push(rec), allowlist) == allowlisted_count(records, allowlist)
            + if rec.status == DomainStatus::Accepted && (rec.normalized matches Some(n)
            && allowlist.contains(n@)) {
            1nat
        } else {
            0nat
        },
{
    assert(records.push(rec).drop_last() == records);
}

/// When every record is accepted with an allowlisted normalized domain, all of them are
/// counted; when no record has an allowlisted normalized domain, none is.
pub proof fn lemma_allowlisted_count_bounds(records: Seq<DomainRecord>, allowlist: Set<Seq<char>>)
    ensures
        (forall|i: int|
            0 <= i < records.len() ==> (#[trigger] records[i]).status == DomainStatus::Accepted
                && (records[i].normalized matches Some(n) && allowlist.contains(n@)))
            ==> allowlisted_count(records, allowlist) == records.len(),
        (forall|i: int|
            0 <= i < records.len() ==> !((#[trigger] records[i]).normalized matches Some(n)
                && allowlist.contains(n@))) ==> allowlisted_count(records, allowlist) == 0,
    decreases records.len(),
{
    if records.len() > 0 {
        let r = records.drop_last();
        lemma_allowlisted_count_bounds(r, allowlist);
        assert forall|i: int| 0 <= i < r.len() implies #[trigger] r[i] == records[i] by {}
        assert(records.last() == records[records.len() - 1]);
    }
}

/// Allowlisted records are among the accepted ones.
pub proof fn lemma_allowlisted_within_accepted(records: Seq<DomainRecord>, allowlist: Set<Seq<char>>)
    ensures
        allowlisted_count(records, allowlist) <= status_count(records, DomainStatus::Accepted),
    decreases records.len(),
{
    if records.len() > 0 {
        lemma_allowlisted_within_accepted(records.drop_last(), allowlist);
    }
}

} // verus!
