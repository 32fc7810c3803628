//! Report rendering: the contents of the CSV files and of the summaries.
use vstd::prelude::*;
use crate::domain::{status_text, DomainRecord, DomainStatus};
use crate::text::{chars_of, contains_char, decimal_text, owned_text, push_char, push_decimal};

verus! {

/// A field that must be quoted in CSV: it holds a comma, a double quote or a newline.
pub open spec fn needs_quoting(s: Seq<char>) -> bool {
    s.contains(',') || s.contains('"') || s.contains('\n')
}

/// `s` with every double quote doubled.
pub open spec fn double_quotes(s: Seq<char>) -> Seq<char>
    decreases s.len(),
{
    if s.len() == 0 {
        Seq::<char>::empty()
    } else if s.last() == '"' {
        double_quotes(s.drop_last()) + seq!['"', '"']
    } else {
        double_quotes(s.drop_last()).push(s.last())
    }
}

/// A CSV field: quoted, with its quotes doubled, when it needs quoting; as is otherwise.
pub open spec fn escape_csv_spec(s: Seq<char>) -> Seq<char> {
    if needs_quoting(s) {
        seq!['"'] + double_quotes(s) + seq!['"']
    } else {
        s
    }
}

/// Escapes a field for CSV output.
pub fn escape_csv(s: &str) -> (r: String)
    ensures
        r@ == escape_csv_spec(s@),
{
    let chars = chars_of(s);
    if contains_char(&chars, ',') || contains_char(&chars, '"') || contains_char(&chars, '\n') {
        let mut r = String::new();
        push_char(&mut r, '"');
        let mut i: usize = 0;
        assert(chars@.take(0) =~= Seq::<char>::empty());
        while i < chars.len()
            invariant
                i <= chars.len(),
                r@ == seq!['"'] + double_quotes(chars@.take(i as int)),
            decreases chars.len() - i,
        {
            assert(chars@.take(i + 1).drop_last() == chars@.take(i as int));
            assert(chars@.take(i + 1).last() == chars@[i as int]);
            let c = chars[i];
            if c == '"' {
                push_char(&mut r, '"');
                push_char(&mut r, '"');
                assert(r@ =~= seq!['"'] + double_quotes(chars@.take(i + 1)));
            } else {
                push_char(&mut r, c);
                assert(r@ =~= seq!['"'] + double_quotes(chars@.take(i + 1)));
            }
            i = i + 1;
        }
        push_char(&mut r, '"');
        assert(chars@.take(chars.len() as int) == chars@);
        assert(r@ =~= seq!['"'] + double_quotes(s@) + seq!['"']);
        r
    } else {
        owned_text(s)
    }
}

/// The four fields of a report row, separated by commas, ending with a newline.
pub open spec fn csv_row(a: Seq<char>, b: Seq<char>, c: Seq<char>, d: Seq<char>) -> Seq<char> {
    a + ","@ + b + ","@ + c + ","@ + d + "\n"@
}

/// The row of a record in the accepted or suspicious file: normalized domain (empty
/// when there is none), source, status, reason.
pub open spec fn record_row(rec: DomainRecord) -> Seq<char> {
    let n = match rec.normalized {
        Some(x) => x@,
        None => Seq::<char>::empty(),
    };
    csv_row(
        escape_csv_spec(n),
        escape_csv_spec(rec.source@),
        status_text(rec.status),
        escape_csv_spec(rec.reason@),
    )
}

/// The row of a record in the rejected file: original value, source, status, reason.
pub open spec fn rejected_row(rec: DomainRecord) -> Seq<char> {
    csv_row(
        escape_csv_spec(rec.original@),
        escape_csv_spec(rec.source@),
        status_text(rec.status),
        escape_csv_spec(rec.reason@),
    )
}

/// The rows of the records with the given status, in order.
pub open spec fn status_rows(records: Seq<DomainRecord>, status: DomainStatus) -> Seq<char>
    decreases records.len(),
{
    if records.len() == 0 {
        Seq::<char>::empty()
    } else if records.last().status == status {
        status_rows(records.drop_last(), status) + record_row(records.last())
    } else {
        status_rows(records.drop_last(), status)
    }
}

/// The rejected rows of the rejected records, in order.
pub open spec fn rejected_rows(records: Seq<DomainRecord>) -> Seq<char>
    decreases records.len(),
{
    if records.len() == 0 {
        Seq::<char>::empty()
    } else if records.last().status == DomainStatus::Rejected {
        rejected_rows(records.drop_last()) + rejected_row(records.last())
    } else {
        rejected_rows(records.drop_last())
    }
}

/// Appends four fields as one CSV row.
fn push_row(out: &mut String, a: &str, b: &str, c: &str, d: &str)
    ensures
        final(out)@ == old(out)@ + csv_row(a@, b@, c@, d@),
{
    out.append(a);
    out.append(",");
    out.append(b);
    out.append(",");
    out.append(c);
    out.append(",");
    out.append(d);
    out.append("\n");
}

/// Contents of the CSV file of the records with the given status (accepted.csv or
/// suspicious.csv): a header line, then one row per such record.
pub fn render_status_csv(records: &Vec<DomainRecord>, status: DomainStatus) -> (text: String)
    ensures
        text@ == "normalized_domain,source,status,reason\n"@ + status_rows(records@, status),
{
    let mut out = owned_text("normalized_domain,source,status,reason\n");
    let mut i: usize = 0;
    while i < records.len()
        invariant
            i <= records.len(),
            out@ == "normalized_domain,source,status,reason\n"@ + status_rows(records@.take(i as int), status),
        decreases records.len() - i,
    {
        assert(records@.take(i + 1).drop_last() == records@.take(i as int));
        assert(records@.take(i + 1).last() == records@[i as int]);
        let rec = &records[i];
        if rec.status == status {
            let n = match &rec.normalized {
                Some(x) => escape_csv(x.as_str()),
                None => escape_csv(""),
            };
            proof {
                reveal_strlit("");
            }
            let src = escape_csv(rec.source.as_str());
            let st = rec.status.to_string();
            let why = escape_csv(rec.reason.as_str());
            push_row(&mut out, n.as_str(), src.as_str(), st.as_str(), why.as_str());
        }
        i = i + 1;
    }
    assert(records@.take(records.len() as int) == records@);
    out
}

/// Contents of rejected.csv: a header line, then one row per rejected record.
pub fn render_rejected_csv(records: &Vec<DomainRecord>) -> (text: String)
    ensures
        text@ == "original_value,source,status,reason\n"@ + rejected_rows(records@),
{
    let mut out = owned_text("original_value,source,status,reason\n");
    let mut i: usize = 0;
    while i < records.len()
        invariant
            i <= records.len(),
            out@ == "original_value,source,status,reason\n"@ + rejected_rows(records@.take(i as int)),
        decreases records.len() - i,
    {
        assert(records@.take(i + 1).drop_last() == records@.take(i as int));
        assert(records@.take(i + 1).last() == records@[i as int]);
        let rec = &records[i];
        if rec.status == DomainStatus::Rejected {
            let orig = escape_csv(rec.original.as_str());
            let src = escape_csv(rec.source.as_str());
            let st = rec.status.to_string();
            let why = escape_csv(rec.reason.as_str());
            push_row(&mut out, orig.as_str(), src.as_str(), st.as_str(), why.as_str());
        }
        i = i + 1;
    }
    assert(records@.take(records.len() as int) == records@);
    out
}

/// Contents of summary.txt.
pub open spec fn summary_text(total: nat, valid: nat, invalid: nat, suspicious: nat, allowlisted: nat) -> Seq<char> {
    "IOCGuard Summary\n================\nTotal lines processed: "@ + decimal_text(total)
        + "\nValid domains:         "@ + decimal_text(valid) + "\nInvalid domains:       "@
        + decimal_text(invalid) + "\nSuspicious domains:    "@ + decimal_text(suspicious)
        + "\nAllowlisted domains:   "@ + decimal_text(allowlisted) + "\n"@
}

/// Renders summary.txt from the report's counts.
pub fn render_summary(
    total: usize,
    valid: usize,
    invalid: usize,
    suspicious: usize,
    allowlisted: usize,
) -> (text: String)
    ensures
        text@ == summary_text(total as nat, valid as nat, invalid as nat, suspicious as nat, allowlisted as nat),
{
    let mut out = owned_text("IOCGuard Summary\n================\nTotal lines processed: ");
    push_decimal(&mut out, total);
    out.append("\nValid domains:         ");
    push_decimal(&mut out, valid);
    out.append("\nInvalid domains:       ");
    push_decimal(&mut out, invalid);
    out.append("\nSuspicious domains:    ");
    push_decimal(&mut out, suspicious);
    out.append("\nAllowlisted domains:   ");
    push_decimal(&mut out, allowlisted);
    out.append("\n");
    out
}

/// The summary printed on the terminal after a run.
pub open spec fn terminal_text(
    total: nat,
    valid: nat,
    invalid: nat,
    allowlisted: nat,
    suspicious: nat,
    out_dir: Seq<char>,
) -> Seq<char> {
    "IOCGuard report\nProcessed lines    : "@ + decimal_text(total) + "\nValid domains      : "@
        + decimal_text(valid) + "\nInvalid domains    : "@ + decimal_text(invalid)
        + "\nAllowlisted domains: "@ + decimal_text(allowlisted) + "\nSuspicious domains : "@
        + decimal_text(suspicious) + "\nReport directory   : "@ + out_dir + "\n"@
}

/// Renders the terminal summary of a run.
pub fn render_terminal_summary(
    total: usize,
    valid: usize,
    invalid: usize,
    allowlisted: usize,
    suspicious: usize,
    out_dir: &str,
) -> (text: String)
    ensures
        text@ == terminal_text(total as nat, valid as nat, invalid as nat, allowlisted as nat, suspicious as nat, out_dir@),
{
    let mut out = owned_text("IOCGuard report\nProcessed lines    : ");
    push_decimal(&mut out, total);
    out.append("\nValid domains      : ");
    push_decimal(&mut out, valid);
    out.append("\nInvalid domains    : ");
    push_decimal(&mut out, invalid);
    out.append("\nAllowlisted domains: ");
    push_decimal(&mut out, allowlisted);
    out.append("\nSuspicious domains : ");
    push_decimal(&mut out, suspicious);
    out.append("\nReport directory   : ");
    out.append(out_dir);
    out.append("\n");
    out
}

} // verus!
