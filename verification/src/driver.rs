//! The import pipeline for one batch: parse the rows' fields, normalize every
//! description, cluster the tokens, resolve each record's canonical account
//! token, and synthesize balanced entries in the original record order.

use vstd::prelude::*;
use vstd::string::StringExecFns;
use crate::bridge::{
    ledger_parse_ok, parse_date_str, parse_decimal_str, parse_ledger_text, parsed_date,
    parsed_decimal, string_from_chars,
};
use crate::cluster::{
    canonical_for, cluster, group_strings_by_levenshtein, group_views, spec_canonical, views,
};
use crate::model::{Amount, BankRecord, Date, Entry, ImportError, balanced};
use crate::normalize::{lemma_normalize_clean, normalize, normalize_spec};
use crate::synth::{is_deposit_entry, is_withdrawal_entry, synthesize};

verus! {

/// The edit-distance threshold under which two payee tokens share a group.
pub const DEFAULT_THRESHOLD: usize = 5;

/// The date layout of the bank export: month, day and four-digit year,
/// separated by slashes.
pub open spec fn mdy_format() -> Seq<char> {
    "%m/%d/%Y"@
}

/// Parses a decimal amount from a string, exactly as the decimal library
/// reads it.
pub fn parse_decimal(value: &str) -> (r: Option<Amount>)
    ensures
        r is Some <==> parsed_decimal(value@) is Some,
        r matches Some(a) ==> parsed_decimal(value@) == Some((a.mantissa as int, a.scale as int))
            && a.valid(),
{
    match parse_decimal_str(value) {
        Some((m, s)) => Some(Amount { mantissa: m, scale: s }),
        None => None,
    }
}

/// An amount field keeps only its digits and punctuation: the quoting and the
/// comma grouping the export wraps around large amounts are dropped.
pub open spec fn keep_amount_char(c: char) -> bool {
    c != ',' && c != '"'
}

/// The amount field with grouping commas and quotes removed.
pub open spec fn strip_grouping(s: Seq<char>) -> Seq<char>
    decreases s.len(),
{
    if s.len() == 0 {
        Seq::empty()
    } else if keep_amount_char(s[0]) {
        seq![s[0]] + strip_grouping(s.drop_first())
    } else {
        strip_grouping(s.drop_first())
    }
}

fn clean_amount_field(field: &str) -> (r: Vec<char>)
    ensures
        r@ == strip_grouping(field@),
{
    let s = crate::distance::str_to_chars(field);
    let n = s.len();
    let mut out: Vec<char> = Vec::new();
    let mut i: usize = 0;
    proof {
        assert(s@.skip(0) =~= s@);
        assert(out@ + strip_grouping(s@.skip(0)) =~= strip_grouping(s@));
    }
    while i < n
        invariant
            i <= n,
            n == s@.len(),
            s@ == field@,
            out@ + strip_grouping(s@.skip(i as int)) == strip_grouping(s@),
        decreases n - i,
    {
        let ghost rest = s@.skip(i as int);
        proof {
            assert(rest[0] == s@[i as int]);
            assert(rest.drop_first() =~= s@.skip(i + 1));
        }
        let c = s[i];
        if c != ',' && c != '"' {
            let ghost o = out@;
            out.push(c);
            proof {
                assert(out@ + strip_grouping(s@.skip(i + 1)) =~= o + (seq![s@[i as int]]
                    + strip_grouping(rest.drop_first())));
            }
        }
        i = i + 1;
    }
    proof {
        assert(s@.skip(n as int) =~= Seq::<char>::empty());
        assert(out@ + Seq::<char>::empty() =~= out@);
    }
    out
}

/// The date field parses under the export's layout, to a year the renderer can
/// print.
pub open spec fn date_field_ok(s: Seq<char>) -> bool {
    parsed_date(s, mdy_format()) matches Some(d) && 0 <= d.0 <= 9999
}

/// What an amount field denotes: nothing when empty after stripping grouping,
/// otherwise whatever the decimal library reads from the stripped text.
pub open spec fn field_amount(s: Seq<char>) -> Option<(int, int)> {
    if strip_grouping(s).len() == 0 {
        None
    } else {
        parsed_decimal(strip_grouping(s))
    }
}

/// The amount field is acceptable: empty, or a parsable non-negative decimal.
pub open spec fn amount_field_ok(s: Seq<char>) -> bool {
    &&& (field_amount(s) is None ==> strip_grouping(s).len() == 0)
    &&& (field_amount(s) matches Some(p) ==> p.0 >= 0)
}

/// Parses one export row's fields into a record.  Succeeds exactly when the
/// date parses to a printable year and each amount field is empty or a
/// non-negative decimal; a failure names the first offending field, in the
/// order date, withdrawal, deposit.
pub fn parse_record(
    date_field: &str,
    description: &str,
    withdrawal_field: &str,
    deposit_field: &str,
) -> (r: Result<BankRecord, ImportError>)
    requires
        description@.len() < usize::MAX,
    ensures
        r is Ok <==> date_field_ok(date_field@) && amount_field_ok(withdrawal_field@)
            && amount_field_ok(deposit_field@),
        r matches Ok(rec) ==> {
            &&& rec.wf()
            &&& parsed_date(date_field@, mdy_format()) == Some(
                (rec.date.year as int, rec.date.month as int, rec.date.day as int),
            )
            &&& rec.description@ == description@
            &&& (rec.withdrawal matches Some(a) ==> field_amount(withdrawal_field@) == Some(
                (a.mantissa as int, a.scale as int),
            ))
            &&& (rec.withdrawal is None ==> field_amount(withdrawal_field@) is None)
            &&& (rec.deposit matches Some(a) ==> field_amount(deposit_field@) == Some(
                (a.mantissa as int, a.scale as int),
            ))
            &&& (rec.deposit is None ==> field_amount(deposit_field@) is None)
        },
        r matches Err(e) ==> e matches ImportError::RecordParse(f) && (if !date_field_ok(
            date_field@,
        ) {
            f@ == date_field@
        } else if !amount_field_ok(withdrawal_field@) {
            f@ == withdrawal_field@
        } else {
            f@ == deposit_field@
        }),
{
    let date = match parse_date_str(date_field, "%m/%d/%Y") {
        Some((y, m, d)) => {
            if y < 0 || y > 9999 {
                return Err(ImportError::RecordParse(String::from_str(date_field)));
            }
            Date { year: y, month: m, day: d }
        },
        None => {
            return Err(ImportError::RecordParse(String::from_str(date_field)));
        },
    };
    let withdrawal = match parse_amount_field(withdrawal_field) {
        Ok(a) => a,
        Err(()) => {
            return Err(ImportError::RecordParse(String::from_str(withdrawal_field)));
        },
    };
    let deposit = match parse_amount_field(deposit_field) {
        Ok(a) => a,
        Err(()) => {
            return Err(ImportError::RecordParse(String::from_str(deposit_field)));
        },
    };
    Ok(
        BankRecord {
            date,
            description: String::from_str(description),
            withdrawal,
            deposit,
        },
    )
}

/// Reads one amount column: nothing when empty after stripping grouping, the
/// amount when it parses non-negative, and a failure otherwise.
fn parse_amount_field(field: &str) -> (r: Result<Option<Amount>, ()>)
    ensures
        r is Ok <==> amount_field_ok(field@),
        r matches Ok(o) ==> {
            &&& (o matches Some(a) ==> field_amount(field@) == Some(
                (a.mantissa as int, a.scale as int),
            ) && a.valid() && a.mantissa >= 0)
            &&& (o is None ==> field_amount(field@) is None)
        },
{
    let cleaned = clean_amount_field(field);
    if cleaned.len() == 0 {
        return Ok(None);
    }
    let text = string_from_chars(&cleaned);
    match parse_decimal(text.as_str()) {
        Some(a) => {
            if a.mantissa < 0 {
                Err(())
            } else {
                Ok(Some(a))
            }
        },
        None => Err(()),
    }
}

/// The normalized token of each record's description, in record order.
pub open spec fn batch_tokens(records: Seq<BankRecord>) -> Seq<Seq<char>> {
    Seq::new(records.len(), |i: int| normalize_spec(records[i].description@))
}

/// The canonical account token the batch assigns to its `i`th record.
pub open spec fn record_canonical(records: Seq<BankRecord>, thr: nat, i: int) -> Seq<char> {
    spec_canonical(cluster(batch_tokens(records), thr), batch_tokens(records)[i])
}

/// How many entries the records before index `i` synthesize.
pub open spec fn entries_before(records: Seq<BankRecord>, i: int) -> nat
    decreases i,
{
    if i <= 0 {
        0
    } else {
        entries_before(records, i - 1) + records[i - 1].entry_count()
    }
}

proof fn lemma_entries_before_mono(records: Seq<BankRecord>, a: int, b: int)
    requires
        a <= b,
    ensures
        entries_before(records, a) <= entries_before(records, b),
    decreases b - a,
{
    if a < b {
        lemma_entries_before_mono(records, a, b - 1);
    }
}

/// Runs the classification pipeline on one batch: normalizes every
/// description, clusters the tokens under `threshold`, and synthesizes each
/// record's entries in the original record order — the withdrawal entry at the
/// record's offset, the deposit entry right after it, every entry balanced.
pub fn import_batch(records: &Vec<BankRecord>, threshold: usize) -> (entries: Vec<Entry>)
    requires
        forall|i: int| 0 <= i < records@.len() ==> (#[trigger] records@[i]).wf(),
    ensures
        entries@.len() == entries_before(records@, records@.len() as int),
        forall|i: int|
            0 <= i < records@.len() && (#[trigger] records@[i]).has_withdrawal()
                ==> is_withdrawal_entry(
                entries@[entries_before(records@, i) as int],
                records@[i],
                record_canonical(records@, threshold as nat, i),
            ),
        forall|i: int|
            0 <= i < records@.len() && (#[trigger] records@[i]).has_deposit() ==> is_deposit_entry(
                entries@[entries_before(records@, i) + records@[i].entry_count() - 1],
                records@[i],
                record_canonical(records@, threshold as nat, i),
            ),
        forall|k: int| 0 <= k < entries@.len() ==> balanced(#[trigger] entries@[k]),
{
    let n = records.len();
    let ghost rs = records@;

    // normalize every description into its token
    let mut tokens: Vec<String> = Vec::new();
    let mut i: usize = 0;
    while i < n
        invariant
            i <= n,
            n == rs.len(),
            rs == records@,
            forall|j: int| 0 <= j < rs.len() ==> (#[trigger] rs[j]).wf(),
            tokens@.len() == i,
            forall|j: int| 0 <= j < i ==> (#[trigger] tokens@[j])@ == batch_tokens(rs)[j],
            forall|j: int| 0 <= j < i ==> (#[trigger] tokens@[j])@.len() < usize::MAX,
        decreases n - i,
    {
        let t = normalize(records[i].description.as_str());
        proof {
            lemma_normalize_clean(rs[i as int].description@);
        }
        tokens.push(t);
        i = i + 1;
    }

    // cluster the whole batch of tokens
    proof {
        assert forall|j: int| 0 <= j < tokens@.len() implies (#[trigger] tokens@[j])@.len()
            < usize::MAX by {}
        assert(views(tokens@) =~= batch_tokens(rs));
    }
    let groups = group_strings_by_levenshtein(tokens.as_slice(), threshold);
    let ghost gv = group_views(groups@);

    // synthesize each record's entries against its canonical token
    let mut entries: Vec<Entry> = Vec::new();
    let mut i: usize = 0;
    while i < n
        invariant
            i <= n,
            n == rs.len(),
            rs == records@,
            forall|j: int| 0 <= j < rs.len() ==> (#[trigger] rs[j]).wf(),
            tokens@.len() == n,
            forall|j: int| 0 <= j < n ==> (#[trigger] tokens@[j])@ == batch_tokens(rs)[j],
            gv == group_views(groups@),
            gv == cluster(batch_tokens(rs), threshold as nat),
            entries@.len() == entries_before(rs, i as int),
            forall|j: int|
                0 <= j < i && (#[trigger] rs[j]).has_withdrawal() ==> is_withdrawal_entry(
                    entries@[entries_before(rs, j) as int],
                    rs[j],
                    record_canonical(rs, threshold as nat, j),
                ),
            forall|j: int|
                0 <= j < i && (#[trigger] rs[j]).has_deposit() ==> is_deposit_entry(
                    entries@[entries_before(rs, j) + rs[j].entry_count() - 1],
                    rs[j],
                    record_canonical(rs, threshold as nat, j),
                ),
            forall|k: int| 0 <= k < entries@.len() ==> balanced(#[trigger] entries@[k]),
        decreases n - i,
    {
        let canonical = canonical_for(&groups, &tokens[i]);
        proof {
            assert(canonical@ == record_canonical(rs, threshold as nat, i as int));
        }
        let mut fresh = synthesize(&records[i], &canonical);
        let ghost pre = entries@;
        let ghost fv = fresh@;
        entries.append(&mut fresh);
        proof {
            assert(entries@ == pre + fv);
            assert(entries_before(rs, i + 1) == entries_before(rs, i as int)
                + rs[i as int].entry_count());
            assert forall|j: int|
                0 <= j < i + 1 && (#[trigger] rs[j]).has_withdrawal() implies is_withdrawal_entry(
                entries@[entries_before(rs, j) as int],
                rs[j],
                record_canonical(rs, threshold as nat, j),
            ) by {
                if j < i {
                    lemma_entries_before_mono(rs, j + 1, i as int);
                    assert(entries_before(rs, j) + rs[j].entry_count() == entries_before(
                        rs,
                        j + 1,
                    ));
                    assert(entries@[entries_before(rs, j) as int] == pre[entries_before(
                        rs,
                        j,
                    ) as int]);
                } else {
                    assert(entries@[entries_before(rs, j) as int] == fv[0]);
                }
            }
            assert forall|j: int|
                0 <= j < i + 1 && (#[trigger] rs[j]).has_deposit() implies is_deposit_entry(
                entries@[entries_before(rs, j) + rs[j].entry_count() - 1],
                rs[j],
                record_canonical(rs, threshold as nat, j),
            ) by {
                if j < i {
                    lemma_entries_before_mono(rs, j + 1, i as int);
                    assert(entries_before(rs, j) + rs[j].entry_count() == entries_before(
                        rs,
                        j + 1,
                    ));
                    assert(entries@[entries_before(rs, j) + rs[j].entry_count() - 1] == pre[
                    entries_before(rs, j) + rs[j].entry_count() - 1]);
                } else {
                    assert(entries@[entries_before(rs, j) + rs[j].entry_count() - 1] == fv[
                    rs[j].entry_count() - 1]);
                }
            }
        }
        i = i + 1;
    }
    entries
}

/// Checks that the destination ledger document parses; nothing is emitted when
/// it does not.
pub fn check_ledger_source(text: &str) -> (r: Result<(), ImportError>)
    ensures
        r is Ok <==> ledger_parse_ok(text@),
        r matches Err(e) ==> e matches ImportError::LedgerRead(_),
{
    match parse_ledger_text(text) {
        Ok(_ledger) => Ok(()),
        Err(message) => Err(ImportError::LedgerRead(message)),
    }
}

} // verus!
