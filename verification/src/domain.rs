//! Domain normalization, validation, and suspicion classification.
use vstd::prelude::*;
use crate::allowlist::Allowlist;
use crate::error::{domain_error_message, DomainError, DomainErrorModel};
use crate::text::{
    lemma_split_last_piece, lemma_split_last_after_sep, lemma_split_last_no_sep,
    trim_start_spec, trim_end_spec,
    chars_of, contains_char, contains_str, contains_text, count_char, count_occurrences,
    decimal_text, join_texts, join_with, lemma_split_on_nonempty, lemma_split_pieces_are_parts, lemma_utf8_len_subrange,
    owned_text, push_decimal, same_text, split_chars, split_on, string_from_range, string_texts,
    texts_of, to_lowercase, trim_spec, trim_str, trim_text, lowercase_spec, ascii_lower_char,
    unicode_white_space, utf8_len, utf8_len_of_range,
    find_char, first_index_of, lemma_trim_idempotent,
};

verus! {

/// Status of a domain after processing.
#[derive(Debug, Clone, Copy, PartialEq, Eq, Structural)]
pub enum DomainStatus {
    Accepted,
    Suspicious,
    Rejected,
}

impl DomainStatus {
    /// The lowercase name of the status, as it appears in reports.
    pub fn to_string(&self) -> (s: String)
        ensures
            s@ == status_text(*self),
    {
        match self {
            DomainStatus::Accepted => owned_text("accepted"),
            DomainStatus::Suspicious => owned_text("suspicious"),
            DomainStatus::Rejected => owned_text("rejected"),
        }
    }
}

/// The lowercase name of a status.
pub open spec fn status_text(s: DomainStatus) -> Seq<char> {
    match s {
        DomainStatus::Accepted => "accepted"@,
        DomainStatus::Suspicious => "suspicious"@,
        DomainStatus::Rejected => "rejected"@,
    }
}

/// A record representing a processed domain entry.
#[derive(Debug, Clone)]
pub struct DomainRecord {
    /// Original raw value from the input (may be malformed).
    pub original: String,
    /// Normalized domain (None if invalid).
    pub normalized: Option<String>,
    /// Source identifier.
    pub source: String,
    /// Processing status.
    pub status: DomainStatus,
    /// Human-readable reason for rejection or suspicion.
    pub reason: String,
}

impl DomainRecord {
    /// Create a new accepted domain record.
    pub fn accepted(original: String, normalized: String, source: String) -> (r: Self)
        ensures
            r.original == original,
            r.normalized == Some(normalized),
            r.source == source,
            r.status == DomainStatus::Accepted,
            r.reason@ == Seq::<char>::empty(),
    {
        DomainRecord {
            original,
            normalized: Some(normalized),
            source,
            status: DomainStatus::Accepted,
            reason: String::new(),
        }
    }

    /// Create a new suspicious domain record.
    pub fn suspicious(original: String, normalized: String, source: String, reason: String) -> (r:
        Self)
        ensures
            r.original == original,
            r.normalized == Some(normalized),
            r.source == source,
            r.status == DomainStatus::Suspicious,
            r.reason == reason,
    {
        DomainRecord {
            original,
            normalized: Some(normalized),
            source,
            status: DomainStatus::Suspicious,
            reason,
        }
    }

    /// Create a new rejected domain record with the description of why it was rejected.
    pub fn rejected(original: String, source: String, reason: String) -> (r: Self)
        ensures
            r.original == original,
            r.normalized is None,
            r.source == source,
            r.status == DomainStatus::Rejected,
            r.reason == reason,
    {
        DomainRecord { original, normalized: None, source, status: DomainStatus::Rejected, reason }
    }
}

/// `s` without one trailing dot, if it ends with one (as `strip_suffix('.')`).
pub open spec fn strip_trailing_dot_spec(s: Seq<char>) -> Seq<char> {
    if s.len() > 0 && s.last() == '.' {
        s.drop_last()
    } else {
        s
    }
}

/// The normalized form of a domain: trimmed, lowercased, without one trailing dot.
pub open spec fn normalize_spec(d: Seq<char>) -> Seq<char> {
    strip_trailing_dot_spec(lowercase_spec(trim_spec(d)))
}

/// Removes one trailing dot, if there is one.
pub fn strip_trailing_dot(s: &str) -> (r: String)
    ensures
        r@ == strip_trailing_dot_spec(s@),
{
    let chars = chars_of(s);
    let n = chars.len();
    if n > 0 && chars[n - 1] == '.' {
        string_from_range(&chars, 0, n - 1)
    } else {
        string_from_range(&chars, 0, n)
    }
}

/// Normalize a domain string: trim, lowercase, remove trailing dot.
pub fn normalize(domain: &str) -> (r: String)
    ensures
        r@ == normalize_spec(domain@),
{
    let trimmed = trim_text(domain);
    let lowered = to_lowercase(trimmed.as_str());
    strip_trailing_dot(lowered.as_str())
}

/// The top-level domains that mark a domain as suspicious.
pub open spec fn is_suspicious_tld(tld: Seq<char>) -> bool {
    tld == "zip"@ || tld == "mov"@ || tld == "top"@ || tld == "xyz"@ || tld == "tk"@
}

/// The first of the suspicious keywords, in the order login, verify, secure, update,
/// paypa1, that occurs in `d`.
pub open spec fn first_keyword(d: Seq<char>) -> Option<Seq<char>> {
    if contains_text(d, "login"@) {
        Some("login"@)
    } else if contains_text(d, "verify"@) {
        Some("verify"@)
    } else if contains_text(d, "secure"@) {
        Some("secure"@)
    } else if contains_text(d, "update"@) {
        Some("update"@)
    } else if contains_text(d, "paypa1"@) {
        Some("paypa1"@)
    } else {
        None
    }
}

/// The top-level domain: the text after the last dot (all of `d` if it has no dot).
pub open spec fn top_level_label(d: Seq<char>) -> Seq<char> {
    labels_of(d).last()
}

/// The reasons, in rule order, why a domain looks suspicious (ignoring the allowlist):
/// it contains `xn--`; its top-level domain is zip, mov, top, xyz or tk; it contains
/// one of the keywords (only the first is reported); it has three or more hyphens.
pub open spec fn suspicion_reasons(d: Seq<char>) -> Seq<Seq<char>> {
    let r1 = if contains_text(d, "xn--"@) {
        seq!["contains 'xn--' prefix (internationalized domain)"@]
    } else {
        Seq::<Seq<char>>::empty()
    };
    let tld = top_level_label(d);
    let r2 = if is_suspicious_tld(tld) {
        seq!["top-level domain '."@ + tld + "' is suspicious"@]
    } else {
        Seq::<Seq<char>>::empty()
    };
    let r3 = match first_keyword(d) {
        Some(k) => seq!["contains keyword '"@ + k + "'"@],
        None => Seq::<Seq<char>>::empty(),
    };
    let h = count_char(d, '-');
    let r4 = if h >= 3 {
        seq!["contains "@ + decimal_text(h) + " hyphens (>= 3)"@]
    } else {
        Seq::<Seq<char>>::empty()
    };
    r1 + r2 + r3 + r4
}

/// What `check_suspicious` answers: nothing for an allowlisted domain or one that
/// breaks no suspicion rule, else the reasons joined by "; ".
pub open spec fn suspicion(d: Seq<char>, allowlist: Set<Seq<char>>) -> Option<Seq<char>> {
    if allowlist.contains(d) {
        None
    } else if suspicion_reasons(d).len() == 0 {
        None
    } else {
        Some(join_with(suspicion_reasons(d), "; "@))
    }
}

/// The first suspicious keyword that occurs in `chars`.
fn find_keyword(chars: &Vec<char>) -> (k: Option<&'static str>)
    ensures
        match k {
            Some(w) => first_keyword(chars@) == Some(w@),
            None => first_keyword(chars@) is None,
        },
{
    if contains_str(chars, "login") {
        Some("login")
    } else if contains_str(chars, "verify") {
        Some("verify")
    } else if contains_str(chars, "secure") {
        Some("secure")
    } else if contains_str(chars, "update") {
        Some("update")
    } else if contains_str(chars, "paypa1") {
        Some("paypa1")
    } else {
        None
    }
}

/// Suspicion rules for a valid domain.
/// Returns `Some(reason)` if suspicious, `None` if clean or allowlisted.
pub fn check_suspicious(domain: &str, allowlist: &Allowlist) -> (r: Option<String>)
    ensures
        match r {
            Some(t) => suspicion(domain@, allowlist@) == Some(t@),
            None => suspicion(domain@, allowlist@) is None,
        },
{
    if allowlist.contains(domain) {
        return None;
    }
    let chars = chars_of(domain);
    let ghost d = domain@;
    let mut reasons: Vec<String> = Vec::new();
    if contains_str(&chars, "xn--") {
        reasons.push(owned_text("contains 'xn--' prefix (internationalized domain)"));
    }
    let ghost r1 = string_texts(reasons@);
    let labels = split_chars(&chars, '.');
    proof {
        lemma_split_on_nonempty(d, '.');
    }
    let last = &labels[labels.len() - 1];
    let tld = string_from_range(last, 0, last.len());
    assert(last@.subrange(0, last.len() as int) == last@);
    assert(tld@ == top_level_label(d));
    if same_text(tld.as_str(), "zip") || same_text(tld.as_str(), "mov") || same_text(
        tld.as_str(),
        "top",
    ) || same_text(tld.as_str(), "xyz") || same_text(tld.as_str(), "tk") {
        let mut m = owned_text("top-level domain '.");
        m.append(tld.as_str());
        m.append("' is suspicious");
        reasons.push(m);
    }
    let ghost r2 = string_texts(reasons@);
    match find_keyword(&chars) {
        Some(kw) => {
            let mut m = owned_text("contains keyword '");
            m.append(kw);
            m.append("'");
            reasons.push(m);
        },
        None => {},
    }
    let ghost r3 = string_texts(reasons@);
    let hyphens = count_occurrences(&chars, '-');
    if hyphens >= 3 {
        let mut m = owned_text("contains ");
        push_decimal(&mut m, hyphens);
        m.append(" hyphens (>= 3)");
        reasons.push(m);
    }
    proof {
        let tl = top_level_label(d);
        let e = Seq::<Seq<char>>::empty();
        let a1 = if contains_text(d, "xn--"@) {
            seq!["contains 'xn--' prefix (internationalized domain)"@]
        } else {
            e
        };
        assert(r1 =~= a1);
        let a2 = if is_suspicious_tld(tl) {
            seq!["top-level domain '."@ + tl + "' is suspicious"@]
        } else {
            e
        };
        assert(r2 =~= a1 + a2);
        let a3 = match first_keyword(d) {
            Some(k) => seq!["contains keyword '"@ + k + "'"@],
            None => e,
        };
        assert(r3 =~= a1 + a2 + a3);
        assert(string_texts(reasons@) =~= suspicion_reasons(d));
    }
    if reasons.len() == 0 {
        None
    } else {
        Some(join_texts(&reasons, "; "))
    }
}

/// Process a single CSV line (domain, source) and return a DomainRecord.
pub fn process_line(domain: &str, source: &str, allowlist: &Allowlist) -> (rec: DomainRecord)
    ensures
        rec.original@ == domain@,
        rec.source@ == source@,
        classified(rec, normalize_spec(domain@), allowlist@),
{
    let original = owned_text(domain);
    let source = owned_text(source);
    let normalized = normalize(domain);
    match validate(normalized.as_str()) {
        Err(e) => DomainRecord::rejected(original, source, e.to_string()),
        Ok(()) => match check_suspicious(normalized.as_str(), allowlist) {
            Some(reason) => DomainRecord::suspicious(original, normalized, source, reason),
            None => DomainRecord::accepted(original, normalized, source),
        },
    }
}

/// How a record classifies the normalized domain `n`: rejected with the validation
/// message and no normalized value when `n` is invalid; otherwise it keeps `n` and is
/// suspicious with the joined reasons, or accepted with an empty reason.
pub open spec fn classified(rec: DomainRecord, n: Seq<char>, allowlist: Set<Seq<char>>) -> bool {
    match validation_error(n) {
        Some(e) => {
            &&& rec.status == DomainStatus::Rejected
            &&& rec.normalized is None
            &&& rec.reason@ == domain_error_message(e)
        },
        None => {
            &&& rec.normalized matches Some(x) && x@ == n
            &&& match suspicion(n, allowlist) {
                Some(why) => rec.status == DomainStatus::Suspicious && rec.reason@ == why,
                None => rec.status == DomainStatus::Accepted && rec.reason@ == Seq::<char>::empty(),
            }
        },
    }
}

/// A character that may appear in a valid (normalized) domain:
/// a lowercase ASCII letter, an ASCII digit, a dot or a hyphen.
pub open spec fn is_allowed_char(c: char) -> bool {
    ('a' <= c && c <= 'z') || ('0' <= c && c <= '9') || c == '.' || c == '-'
}

/// The error that a single label causes, if any, checked in the order:
/// empty, longer than 63 bytes, hyphen at its start or end.
pub open spec fn label_error(label: Seq<char>) -> Option<DomainErrorModel> {
    if label.len() == 0 {
        Some(DomainErrorModel::EmptyLabel)
    } else if utf8_len(label) > 63 {
        Some(DomainErrorModel::LabelTooLong(utf8_len(label)))
    } else if label[0] == '-' || label.last() == '-' {
        Some(DomainErrorModel::LabelHyphenEdge(label))
    } else {
        None
    }
}

/// The error of the first label (from the left) that has one.
pub open spec fn first_label_error(labels: Seq<Seq<char>>) -> Option<DomainErrorModel>
    decreases labels.len(),
{
    if labels.len() == 0 {
        None
    } else {
        match first_label_error(labels.drop_last()) {
            Some(e) => Some(e),
            None => label_error(labels.last()),
        }
    }
}

/// The first character (from the left) that is not allowed in a domain.
pub open spec fn first_invalid_char(s: Seq<char>) -> Option<char>
    decreases s.len(),
{
    if s.len() == 0 {
        None
    } else {
        match first_invalid_char(s.drop_last()) {
            Some(c) => Some(c),
            None => if is_allowed_char(s.last()) {
                None
            } else {
                Some(s.last())
            },
        }
    }
}

/// The labels of a domain: the pieces between its dots.
pub open spec fn labels_of(d: Seq<char>) -> Seq<Seq<char>> {
    split_on(d, '.')
}

/// The error `validate` reports for the (normalized) domain `d`, or `None` when it is valid.
/// The checks apply in this order: empty; no dot; more than 253 bytes; two consecutive
/// dots; the first label that is empty, longer than 63 bytes or has a hyphen at an edge;
/// the first character that is not a lowercase letter, digit, dot or hyphen.
pub open spec fn validation_error(d: Seq<char>) -> Option<DomainErrorModel> {
    if d.len() == 0 {
        Some(DomainErrorModel::Empty)
    } else if !d.contains('.') {
        Some(DomainErrorModel::NoDot)
    } else if utf8_len(d) > 253 {
        Some(DomainErrorModel::TooLong(utf8_len(d)))
    } else if contains_text(d, ".."@) {
        Some(DomainErrorModel::ConsecutiveDots)
    } else if first_label_error(labels_of(d)) is Some {
        first_label_error(labels_of(d))
    } else if first_invalid_char(d) is Some {
        Some(DomainErrorModel::InvalidCharacter(first_invalid_char(d)->0))
    } else {
        None
    }
}

/// A label that breaks none of the label rules.
pub open spec fn label_ok(label: Seq<char>) -> bool {
    &&& label.len() > 0
    &&& utf8_len(label) <= 63
    &&& label[0] != '-'
    &&& label.last() != '-'
}

/// The validation rules, stated all at once: a valid domain is non-empty, has a dot,
/// takes at most 253 bytes, has no two consecutive dots, every label is non-empty,
/// at most 63 bytes long and neither starts nor ends with a hyphen, and every character
/// is a lowercase ASCII letter, an ASCII digit, a dot or a hyphen.
pub open spec fn is_valid_domain(d: Seq<char>) -> bool {
    &&& d.len() > 0
    &&& d.contains('.')
    &&& utf8_len(d) <= 253
    &&& !contains_text(d, ".."@)
    &&& forall|i: int| 0 <= i < labels_of(d).len() ==> label_ok(#[trigger] labels_of(d)[i])
    &&& forall|i: int| 0 <= i < d.len() ==> is_allowed_char(#[trigger] d[i])
}

proof fn lemma_first_label_error_none(labels: Seq<Seq<char>>)
    ensures
        first_label_error(labels) is None <==> forall|i: int|
            0 <= i < labels.len() ==> label_ok(#[trigger] labels[i]),
    decreases labels.len(),
{
    if labels.len() > 0 {
        lemma_first_label_error_none(labels.drop_last());
        if first_label_error(labels) is None {
            assert forall|i: int| 0 <= i < labels.len() implies label_ok(#[trigger] labels[i]) by {
                if i < labels.len() - 1 {
                    assert(labels[i] == labels.drop_last()[i]);
                }
            }
        }
        if forall|i: int| 0 <= i < labels.len() ==> label_ok(#[trigger] labels[i]) {
            assert forall|i: int| 0 <= i < labels.drop_last().len() implies label_ok(
                #[trigger] labels.drop_last()[i],
            ) by {
                assert(labels[i] == labels.drop_last()[i]);
            }
            assert(label_ok(labels[labels.len() - 1]));
        }
    }
}

proof fn lemma_first_invalid_char_none(s: Seq<char>)
    ensures
        first_invalid_char(s) is None <==> forall|i: int|
            0 <= i < s.len() ==> is_allowed_char(#[trigger] s[i]),
    decreases s.len(),
{
    if s.len() > 0 {
        lemma_first_invalid_char_none(s.drop_last());
        if first_invalid_char(s) is None {
            assert forall|i: int| 0 <= i < s.len() implies is_allowed_char(#[trigger] s[i]) by {
                if i < s.len() - 1 {
                    assert(s[i] == s.drop_last()[i]);
                }
            }
        }
        if forall|i: int| 0 <= i < s.len() ==> is_allowed_char(#[trigger] s[i]) {
            assert forall|i: int| 0 <= i < s.drop_last().len() implies is_allowed_char(
                #[trigger] s.drop_last()[i],
            ) by {
                assert(s[i] == s.drop_last()[i]);
            }
            assert(is_allowed_char(s[s.len() - 1]));
        }
    }
}

/// The ordered checks of `validation_error` find no error exactly when the
/// domain obeys every validation rule at once.
pub proof fn lemma_validation_error_none_iff_valid(d: Seq<char>)
    ensures
        validation_error(d) is None <==> is_valid_domain(d),
{
    lemma_first_label_error_none(labels_of(d));
    lemma_first_invalid_char_none(d);
}

/// Whether `c` is a lowercase ASCII letter, an ASCII digit, a dot or a hyphen.
fn allowed_char(c: char) -> (b: bool)
    ensures
        b == is_allowed_char(c),
{
    ('a' <= c && c <= 'z') || ('0' <= c && c <= '9') || c == '.' || c == '-'
}

/// Checks a normalized domain against the validation rules.
/// Returns `Ok(())` if it is valid, or the first rule it breaks (see `validation_error`).
pub fn validate(domain: &str) -> (r: Result<(), DomainError>)
    ensures
        match r {
            Ok(()) => validation_error(domain@) is None,
            Err(e) => validation_error(domain@) == Some(e@),
        },
        r is Ok <==> is_valid_domain(domain@),
        r is Ok ==> forall|i: int|
            0 <= i < domain@.len() ==> ('a' <= #[trigger] domain@[i] && domain@[i] <= 'z') || (
            '0' <= domain@[i] && domain@[i] <= '9') || domain@[i] == '.' || domain@[i] == '-',
{
    proof {
        lemma_validation_error_none_iff_valid(domain@);
    }
    let chars = chars_of(domain);
    if chars.len() == 0 {
        return Err(DomainError::Empty);
    }
    if !contains_char(&chars, '.') {
        return Err(DomainError::NoDot);
    }
    let n = domain.as_bytes().len();
    assert(n == utf8_len(domain@));
    if n > 253 {
        return Err(DomainError::TooLong(n));
    }
    if contains_str(&chars, "..") {
        return Err(DomainError::ConsecutiveDots);
    }
    let labels = split_chars(&chars, '.');
    let ghost ls = labels_of(domain@);
    proof {
        lemma_split_pieces_are_parts(domain@, '.');
    }
    let mut k: usize = 0;
    while k < labels.len()
        invariant
            texts_of(labels@) == ls,
            ls == labels_of(domain@),
            chars@ == domain@,
            n == utf8_len(domain@),
            n <= 253,
            domain@.len() > 0,
            domain@.contains('.'),
            !contains_text(domain@, ".."@),
            k <= labels.len(),
            first_label_error(ls.take(k as int)) is None,
            forall|j: int|
                0 <= j < ls.len() ==> exists|lo: int, hi: int|
                    0 <= lo <= hi <= domain@.len() && #[trigger] ls[j] == domain@.subrange(lo, hi),
        decreases labels.len() - k,
    {
        let label = &labels[k];
        let ghost l = ls[k as int];
        assert(label@ == l);
        assert(ls.take(k + 1).drop_last() == ls.take(k as int));
        assert(ls.take(k + 1).last() == l);
        if label.len() == 0 {
            proof { lemma_first_label_error_prefix(ls, k as int + 1); }
            return Err(DomainError::EmptyLabel);
        }
        proof {
            let (lo, hi) = choose|lo: int, hi: int|
                0 <= lo <= hi <= domain@.len() && ls[k as int] == domain@.subrange(lo, hi);
            lemma_utf8_len_subrange(domain@, lo, hi);
            assert(label@.subrange(0, label.len() as int) == label@);
        }
        let ln = utf8_len_of_range(label, 0, label.len());
        if ln > 63 {
            proof { lemma_first_label_error_prefix(ls, k as int + 1); }
            return Err(DomainError::LabelTooLong(ln));
        }
        if label[0] == '-' || label[label.len() - 1] == '-' {
            proof { lemma_first_label_error_prefix(ls, k as int + 1); }
            let text = string_from_range(label, 0, label.len());
            return Err(DomainError::LabelHyphenEdge(text));
        }
        k = k + 1;
    }
    assert(ls.take(labels.len() as int) == ls);
    let mut i: usize = 0;
    while i < chars.len()
        invariant
            chars@ == domain@,
            domain@.len() > 0,
            domain@.contains('.'),
            utf8_len(domain@) <= 253,
            !contains_text(domain@, ".."@),
            first_label_error(labels_of(domain@)) is None,
            i <= chars.len(),
            first_invalid_char(chars@.take(i as int)) is None,
        decreases chars.len() - i,
    {
        let c = chars[i];
        assert(chars@.take(i + 1).drop_last() == chars@.take(i as int));
        assert(chars@.take(i + 1).last() == c);
        if !allowed_char(c) {
            proof { lemma_first_invalid_char_prefix(chars@, i as int + 1); }
            return Err(DomainError::InvalidCharacter(c));
        }
        i = i + 1;
    }
    assert(chars@.take(chars.len() as int) == chars@);
    Ok(())
}

/// When a prefix of the labels already holds an error, the whole list reports that error.
proof fn lemma_first_label_error_prefix(labels: Seq<Seq<char>>, k: int)
    requires
        0 <= k <= labels.len(),
        first_label_error(labels.take(k)) is Some,
    ensures
        first_label_error(labels) == first_label_error(labels.take(k)),
    decreases labels.len() - k,
{
    if k < labels.len() {
        assert(labels.take(k + 1).drop_last() == labels.take(k));
        lemma_first_label_error_prefix(labels, k + 1);
    } else {
        assert(labels.take(k) == labels);
    }
}

/// When a prefix already holds a disallowed character, that is the first one of the whole text.
proof fn lemma_first_invalid_char_prefix(s: Seq<char>, k: int)
    requires
        0 <= k <= s.len(),
        first_invalid_char(s.take(k)) is Some,
    ensures
        first_invalid_char(s) == first_invalid_char(s.take(k)),
    decreases s.len() - k,
{
    if k < s.len() {
        assert(s.take(k + 1).drop_last() == s.take(k));
        lemma_first_invalid_char_prefix(s, k + 1);
    } else {
        assert(s.take(k) == s);
    }
}

/// A domain in the allowlist is never reported as suspicious.
pub proof fn lemma_allowlisted_never_suspicious(d: Seq<char>, allowlist: Set<Seq<char>>)
    requires
        allowlist.contains(d),
    ensures
        suspicion(d, allowlist) is None,
{
}

/// A domain outside the allowlist is reported as suspicious exactly when at least one
/// suspicion rule holds: it contains `xn--`, its top-level domain is zip, mov, top, xyz
/// or tk, it contains one of the keywords, or it has three or more hyphens.
pub proof fn lemma_suspicious_iff_some_rule(d: Seq<char>, allowlist: Set<Seq<char>>)
    requires
        !allowlist.contains(d),
    ensures
        suspicion(d, allowlist) is Some <==> (contains_text(d, "xn--"@) || is_suspicious_tld(
            top_level_label(d),
        ) || first_keyword(d) is Some || count_char(d, '-') >= 3),
{
}

/// A record that is not rejected carries its normalized domain, and that domain obeys
/// every validation rule; a rejected record carries no normalized domain.
pub proof fn lemma_record_validity(rec: DomainRecord, n: Seq<char>, allowlist: Set<Seq<char>>)
    requires
        classified(rec, n, allowlist),
    ensures
        rec.status != DomainStatus::Rejected ==> (rec.normalized matches Some(x) && x@ == n
            && is_valid_domain(x@)),
        rec.status == DomainStatus::Rejected <==> !is_valid_domain(n),
        rec.status == DomainStatus::Rejected ==> rec.normalized is None,
{
    lemma_validation_error_none_iff_valid(n);
}

/// A record whose normalized domain is allowlisted is never suspicious: it is accepted
/// when the domain is valid and rejected otherwise.
pub proof fn lemma_allowlisted_record_not_suspicious(
    rec: DomainRecord,
    n: Seq<char>,
    allowlist: Set<Seq<char>>,
)
    requires
        classified(rec, n, allowlist),
        allowlist.contains(n),
    ensures
        rec.status != DomainStatus::Suspicious,
        is_valid_domain(n) ==> rec.status == DomainStatus::Accepted,
{
    lemma_validation_error_none_iff_valid(n);
}

/// Surrounding whitespace does not change the normalized form of a domain.
pub proof fn lemma_normalize_ignores_surrounding_space(d: Seq<char>)
    ensures
        normalize_spec(trim_spec(d)) == normalize_spec(d),
{
    lemma_trim_idempotent(d);
}

/// A valid normalized domain is its own normal form: normalizing it again changes nothing.
pub proof fn lemma_normalize_stable_on_valid(d: Seq<char>)
    requires
        is_valid_domain(normalize_spec(d)),
    ensures
        normalize_spec(normalize_spec(d)) == normalize_spec(d),
{
    let n = normalize_spec(d);
    assert(is_allowed_char(n[0]));
    assert(is_allowed_char(n[n.len() - 1]));
    assert(!unicode_white_space(n[0]));
    assert(!unicode_white_space(n.last()));
    assert(trim_start_spec(n) == n);
    assert(trim_end_spec(n) == n);
    assert forall|i: int| 0 <= i < n.len() implies (#[trigger] n[i] as u32) < 0x80 by {
        assert(is_allowed_char(n[i]));
    }
    let low = n.map_values(|c: char| ascii_lower_char(c));
    assert forall|i: int| 0 <= i < n.len() implies #[trigger] low[i] == n[i] by {
        assert(is_allowed_char(n[i]));
    }
    assert(low =~= n);
    lemma_split_on_nonempty(n, '.');
    let ls = labels_of(n);
    assert(label_ok(ls[ls.len() - 1]));
    if n.last() == '.' {
        assert(ls == split_on(n.drop_last(), '.').push(Seq::<char>::empty()));
    }
}

/// A valid domain holds only lowercase ASCII letters, ASCII digits, dots and hyphens;
/// any other character makes it invalid.
pub proof fn lemma_valid_domain_chars(d: Seq<char>)
    ensures
        is_valid_domain(d) ==> forall|i: int|
            0 <= i < d.len() ==> ('a' <= #[trigger] d[i] && d[i] <= 'z') || ('0' <= d[i] && d[i]
                <= '9') || d[i] == '.' || d[i] == '-',
        forall|i: int|
            0 <= i < d.len() && !(('a' <= #[trigger] d[i] && d[i] <= 'z') || ('0' <= d[i] && d[i]
                <= '9') || d[i] == '.' || d[i] == '-') ==> !is_valid_domain(d),
{
}

/// The top-level domain is the text after the last dot: it holds no dot and the domain
/// is some prefix, a dot, and it; a domain without a dot is its own top-level domain.
pub proof fn lemma_top_level_label(d: Seq<char>)
    ensures
        !top_level_label(d).contains('.'),
        d.contains('.') ==> exists|p: Seq<char>| d == p + seq!['.'] + top_level_label(d),
        !d.contains('.') ==> top_level_label(d) == d,
{
    lemma_split_last_piece(d, '.');
    let lo = choose|lo: int|
        0 <= lo <= d.len() && split_on(d, '.').last() == d.subrange(lo, d.len() as int) && (
        forall|j: int| lo <= j < d.len() ==> d[j] != '.') && (lo > 0 ==> d[lo - 1] == '.');
    let t = top_level_label(d);
    assert(t == d.subrange(lo, d.len() as int));
    assert forall|j: int| 0 <= j < t.len() implies t[j] != '.' by {
        assert(t[j] == d[lo + j]);
    }
    if d.contains('.') {
        if lo == 0 {
            let j = choose|j: int| 0 <= j < d.len() && d[j] == '.';
            assert(d[j] != '.');
        }
        assert(d =~= d.take(lo - 1) + seq!['.'] + t);
    } else {
        if lo > 0 {
            assert(d.contains('.'));
        }
        assert(t =~= d);
    }
}

/// A domain outside the allowlist whose text after its last dot is zip, mov, top, xyz or
/// tk is suspicious, and the top-level-domain reason names that text, however many
/// labels come before it.
pub proof fn lemma_suspicious_tld(p: Seq<char>, t: Seq<char>, allowlist: Set<Seq<char>>)
    requires
        t == "zip"@ || t == "mov"@ || t == "top"@ || t == "xyz"@ || t == "tk"@,
        !allowlist.contains(p + seq!['.'] + t),
    ensures
        suspicion(p + seq!['.'] + t, allowlist) is Some,
        suspicion_reasons(p + seq!['.'] + t).contains("top-level domain '."@ + t + "' is suspicious"@),
{
    reveal_strlit("zip");
    reveal_strlit("mov");
    reveal_strlit("top");
    reveal_strlit("xyz");
    reveal_strlit("tk");
    assert(!t.contains('.')) by {
        if t.contains('.') {
            let j = choose|j: int| 0 <= j < t.len() && t[j] == '.';
        }
    }
    let d = p + seq!['.'] + t;
    lemma_split_last_after_sep(p, '.', t);
    assert(top_level_label(d) == t);
    let reasons = suspicion_reasons(d);
    let r = "top-level domain '."@ + t + "' is suspicious"@;
    let e = Seq::<Seq<char>>::empty();
    let a1 = if contains_text(d, "xn--"@) {
        seq!["contains 'xn--' prefix (internationalized domain)"@]
    } else {
        e
    };
    assert(reasons[a1.len() as int] == r);
}

/// What `parse_csv_line` answers for `line`: the line is trimmed; an empty line, a line
/// without a comma, and a line whose first comma comes first are refused; otherwise the
/// domain is the text before the first comma and the source the text after it.
pub open spec fn csv_fields(line: Seq<char>) -> Result<(Seq<char>, Seq<char>), DomainErrorModel> {
    let t = trim_spec(line);
    if t.len() == 0 {
        Err(DomainErrorModel::CsvParseError("Empty line"@))
    } else if !t.contains(',') {
        Err(DomainErrorModel::CsvParseError("Missing comma separator"@))
    } else if first_index_of(t, ',') == 0 {
        Err(DomainErrorModel::CsvParseError("Domain field is empty"@))
    } else {
        let p = first_index_of(t, ',');
        Ok((t.take(p), t.skip(p + 1)))
    }
}

/// Parse a CSV line (domain,source). Returns (domain, source) or an error.
pub fn parse_csv_line<'a>(line: &'a str) -> (r: Result<(&'a str, &'a str), DomainError>)
    ensures
        match r {
            Ok((d, s)) => csv_fields(line@) == Ok::<(Seq<char>, Seq<char>), DomainErrorModel>((d@, s@)),
            Err(e) => csv_fields(line@) == Err::<(Seq<char>, Seq<char>), DomainErrorModel>(e@),
        },
        r matches Ok((d, s)) ==> {
            &&& trim_spec(line@) == d@ + ","@ + s@
            &&& d@.len() > 0
            &&& !d@.contains(',')
        },
{
    let trimmed = trim_str(line);
    let chars = chars_of(trimmed);
    if chars.len() == 0 {
        return Err(DomainError::CsvParseError(owned_text("Empty line")));
    }
    let comma_pos = match find_char(&chars, ',') {
        Some(p) => p,
        None => {
            return Err(DomainError::CsvParseError(owned_text("Missing comma separator")));
        },
    };
    if comma_pos == 0 {
        return Err(DomainError::CsvParseError(owned_text("Domain field is empty")));
    }
    let domain = trimmed.substring_char(0, comma_pos);
    let source = trimmed.substring_char(comma_pos + 1, chars.len());
    proof {
        let t = trimmed@;
        let p = comma_pos as int;
        assert(t.take(p) == t.subrange(0, p));
        assert(t.skip(p + 1) == t.subrange(p + 1, t.len() as int));
        reveal_strlit(",");
        assert(","@ =~= seq![',']);
        assert(t =~= t.subrange(0, p) + seq![','] + t.subrange(p + 1, t.len() as int));
        assert forall|j: int| 0 <= j < domain@.len() implies domain@[j] != ',' by {
            assert(domain@[j] == t[j]);
        }
    }
    Ok((domain, source))
}

/// The allowlist that `load_allowlist` builds from `content`: the normalized form of
/// every line (lines end at '\n'; surrounding whitespace, a '\r' included, is trimmed),
/// leaving out those that normalize to the empty text.
pub open spec fn allowlist_of(content: Seq<char>) -> Set<Seq<char>> {
    Set::new(
        |x: Seq<char>|
            x.len() > 0 && exists|i: int|
                0 <= i < split_on(content, '\n').len() && normalize_spec(
                    #[trigger] split_on(content, '\n')[i],
                ) == x,
    )
}

/// Every line of an allowlist file counts, the last one too when the file does not end
/// with a newline: a line `x` (holding no newline) after any text and a newline, or
/// alone, puts its normalized form in the allowlist when that form is not empty.
pub proof fn lemma_allowlist_keeps_last_line(p: Seq<char>, x: Seq<char>)
    requires
        !x.contains('\n'),
        normalize_spec(x).len() > 0,
    ensures
        allowlist_of(p + seq!['\n'] + x).contains(normalize_spec(x)),
        allowlist_of(x).contains(normalize_spec(x)),
{
    let c = p + seq!['\n'] + x;
    lemma_split_last_after_sep(p, '\n', x);
    lemma_split_on_nonempty(c, '\n');
    let ls = split_on(c, '\n');
    assert(ls[ls.len() - 1] == x);
    lemma_split_last_no_sep(x, '\n');
    lemma_split_on_nonempty(x, '\n');
    let ms = split_on(x, '\n');
    assert(ms[ms.len() - 1] == x);
}

/// Load an allowlist file, one domain per line.
pub fn load_allowlist(content: &str) -> (a: Allowlist)
    ensures
        a@ == allowlist_of(content@),
        forall|i: int|
            0 <= i < split_on(content@, '\n').len() && normalize_spec(
                #[trigger] split_on(content@, '\n')[i],
            ).len() > 0 ==> a@.contains(normalize_spec(split_on(content@, '\n')[i])),
        forall|x: Seq<char>| #[trigger] a@.contains(x) ==> x.len() > 0,
{
    let chars = chars_of(content);
    let lines = split_chars(&chars, '\n');
    let ghost ls = split_on(content@, '\n');
    let mut a = Allowlist::new();
    let mut k: usize = 0;
    while k < lines.len()
        invariant
            texts_of(lines@) == ls,
            k <= lines.len(),
            a@ == Set::new(
                |x: Seq<char>|
                    x.len() > 0 && exists|i: int|
                        0 <= i < k && normalize_spec(#[trigger] ls[i]) == x,
            ),
        decreases lines.len() - k,
    {
        let line = &lines[k];
        let text = string_from_range(line, 0, line.len());
        assert(line@.subrange(0, line.len() as int) == line@);
        assert(text@ == ls[k as int]);
        let trimmed = trim_text(text.as_str());
        let n = normalize(trimmed.as_str());
        proof {
            lemma_trim_idempotent(ls[k as int]);
            assert(normalize_spec(trimmed@) == normalize_spec(ls[k as int]));
        }
        let ghost before = a@;
        if !n.as_str().is_empty() {
            a.insert(n);
        }
        proof {
            let after = Set::new(
                |x: Seq<char>|
                    x.len() > 0 && exists|i: int|
                        0 <= i < k + 1 && normalize_spec(#[trigger] ls[i]) == x,
            );
            assert forall|x: Seq<char>| after.contains(x) <==> a@.contains(x) by {
                if after.contains(x) {
                    let i = choose|i: int| 0 <= i < k + 1 && normalize_spec(#[trigger] ls[i]) == x;
                    if i < k {
                        assert(before.contains(x));
                    }
                }
                if before.contains(x) {
                    let i = choose|i: int| 0 <= i < k && normalize_spec(#[trigger] ls[i]) == x;
                    assert(after.contains(x));
                }
            }
            assert(a@ =~= after);
        }
        k = k + 1;
    }
    assert(a@ =~= allowlist_of(content@));
    a
}

} // verus!
