use dnb_ledger::cluster::{canonical_for, group_strings_by_levenshtein};
use dnb_ledger::distance::levenshtein_distance;
use dnb_ledger::driver::{check_ledger_source, import_batch, parse_decimal, parse_record};
use dnb_ledger::model::{Amount, BankRecord, Date, Entry, ImportError};
use dnb_ledger::normalize::normalize;
use dnb_ledger::render::render_entry;

fn strings(items: &[&str]) -> Vec<String> {
    items.iter().map(|s| s.to_string()).collect()
}

fn record(date: &str, desc: &str, withdrawal: &str, deposit: &str) -> BankRecord {
    parse_record(date, desc, withdrawal, deposit).expect("record should parse")
}

fn assert_balanced(e: &Entry) {
    assert_eq!(e.first.amount.scale, e.second.amount.scale);
    assert_eq!(e.first.amount.mantissa + e.second.amount.mantissa, 0);
}

#[test]
fn distance_of_equal_strings_is_zero() {
    assert_eq!(levenshtein_distance("AMAZONX1", "AMAZONX1"), 0);
    assert_eq!(levenshtein_distance("", ""), 0);
}

#[test]
fn distance_is_symmetric() {
    assert_eq!(
        levenshtein_distance("kitten", "sitting"),
        levenshtein_distance("sitting", "kitten")
    );
    assert_eq!(
        levenshtein_distance("Coffee", "Toffee"),
        levenshtein_distance("Toffee", "Coffee")
    );
}

#[test]
fn distance_kitten_sitting_is_three() {
    assert_eq!(levenshtein_distance("kitten", "sitting"), 3);
}

#[test]
fn distance_to_empty_is_length() {
    assert_eq!(levenshtein_distance("", "abc"), 3);
    assert_eq!(levenshtein_distance("abcd", ""), 4);
}

#[test]
fn distance_satisfies_the_triangle_inequality_on_samples() {
    let triples = [
        ("kitten", "mitten", "sitting"),
        ("AMAZONX1", "NETFLIX", "AMAZONX2"),
        ("", "abc", "abcdef"),
    ];
    for (a, b, c) in triples {
        assert!(
            levenshtein_distance(a, c)
                <= levenshtein_distance(a, b) + levenshtein_distance(b, c)
        );
    }
}

#[test]
fn normalize_strips_marker_and_joins_words() {
    assert_eq!(normalize("Coffee Shop Dato 12.05"), "Coffee_Shop");
}

#[test]
fn normalize_collapses_whitespace_runs() {
    assert_eq!(normalize("  A   B \t C "), "A_B_C");
}

#[test]
fn normalize_is_idempotent_on_samples() {
    for raw in [
        "Coffee Shop Dato 12.05",
        "  A   B \t C ",
        "",
        "Dato 1.1",
        "plain",
        "under_score  Dato x",
    ] {
        let once = normalize(raw);
        let twice = normalize(&once);
        assert_eq!(twice, once);
    }
}

#[test]
fn normalize_drops_separators_left_by_the_cut() {
    assert_eq!(normalize("A _ Dato 99"), "A");
}

#[test]
fn distance_counts_logical_characters_not_bytes() {
    // the accented character is one logical character, several bytes
    assert_eq!(levenshtein_distance("na\u{ef}ve", "naive"), 1);
}

#[test]
fn normalize_never_errors_on_odd_input() {
    assert_eq!(normalize(""), "");
    assert_eq!(normalize("   "), "");
    assert_eq!(normalize("DatoX"), "");
}

#[test]
fn clustering_groups_near_tokens() {
    let tokens = strings(&["AMAZONX1", "AMAZONX2", "NETFLIX"]);
    let groups = group_strings_by_levenshtein(&tokens, 1);
    assert_eq!(groups.len(), 2);
    assert_eq!(groups[0], strings(&["AMAZONX1", "AMAZONX2"]));
    assert_eq!(groups[1], strings(&["NETFLIX"]));
    let canonical = canonical_for(&groups, &"AMAZONX2".to_string());
    assert_eq!(canonical, "AMAZONX1");
}

#[test]
fn clustering_is_deterministic() {
    let tokens = strings(&["AMAZONX1", "AMAZONX2", "NETFLIX"]);
    let first = group_strings_by_levenshtein(&tokens, 1);
    let second = group_strings_by_levenshtein(&tokens, 1);
    assert_eq!(first, second);
}

#[test]
fn clustering_depends_on_input_order() {
    let chained = group_strings_by_levenshtein(&strings(&["AAAA", "AABB", "BBBB"]), 2);
    assert_eq!(chained.len(), 1);
    assert_eq!(chained[0], strings(&["AAAA", "AABB", "BBBB"]));

    let reordered = group_strings_by_levenshtein(&strings(&["AAAA", "BBBB", "AABB"]), 2);
    assert_eq!(reordered.len(), 2);
    assert_eq!(reordered[0], strings(&["AAAA", "AABB"]));
    assert_eq!(reordered[1], strings(&["BBBB"]));

    // the reordering is reproducible, not accidental
    let again = group_strings_by_levenshtein(&strings(&["AAAA", "BBBB", "AABB"]), 2);
    assert_eq!(again, reordered);
}

#[test]
fn parse_decimal_reads_exact_amounts() {
    assert_eq!(
        parse_decimal("45.00"),
        Some(Amount { mantissa: 4500, scale: 2 })
    );
    assert_eq!(parse_decimal("45"), Some(Amount { mantissa: 45, scale: 0 }));
    assert_eq!(parse_decimal("not a number"), None);
}

#[test]
fn parse_record_reads_all_fields() {
    let rec = record("05/01/2024", "Coffee Shop Dato 12.05", "45.00", "");
    assert_eq!(rec.date, Date { year: 2024, month: 5, day: 1 });
    assert_eq!(rec.description, "Coffee Shop Dato 12.05");
    assert_eq!(rec.withdrawal, Some(Amount { mantissa: 4500, scale: 2 }));
    assert_eq!(rec.deposit, None);
}

#[test]
fn parse_record_strips_grouping_from_amounts() {
    let rec = record("12/31/2023", "Big", "", "\"1,234.56\"");
    assert_eq!(rec.deposit, Some(Amount { mantissa: 123456, scale: 2 }));
    assert_eq!(rec.withdrawal, None);
}

#[test]
fn parse_record_rejects_bad_date() {
    let r = parse_record("13/45/20x4", "X", "", "");
    match r {
        Err(ImportError::RecordParse(field)) => assert_eq!(field, "13/45/20x4"),
        _ => panic!("expected a record parse error"),
    }
}

#[test]
fn parse_record_rejects_bad_amount() {
    let r = parse_record("05/01/2024", "X", "abc", "");
    match r {
        Err(ImportError::RecordParse(field)) => assert_eq!(field, "abc"),
        _ => panic!("expected a record parse error"),
    }
}

#[test]
fn parse_record_rejects_negative_amount() {
    let r = parse_record("05/01/2024", "X", "", "-5.00");
    assert!(matches!(r, Err(ImportError::RecordParse(_))));
}

#[test]
fn error_detail_names_the_offending_field() {
    let r = parse_record("junk", "X", "", "");
    match r {
        Err(e) => assert_eq!(e.detail(), "junk"),
        Ok(_) => panic!("expected an error"),
    }
}

#[test]
fn withdrawal_row_becomes_expense_entry() {
    let rec = record("05/01/2024", "Coffee Shop Dato 12.05", "45.00", "");
    let entries = import_batch(&vec![rec], 5);
    assert_eq!(entries.len(), 1);
    let e = &entries[0];
    assert_eq!(e.date, Date { year: 2024, month: 5, day: 1 });
    assert_eq!(e.narration, "Coffee Shop Dato 12.05");
    assert_eq!(e.first.account, "Expenses:Coffee_Shop");
    assert_eq!(e.first.amount, Amount { mantissa: 4500, scale: 2 });
    assert_eq!(e.second.account, "Assets:DNB:Checking");
    assert_eq!(e.second.amount, Amount { mantissa: -4500, scale: 2 });
    assert_balanced(e);
}

#[test]
fn withdrawal_entry_renders_as_ledger_block() {
    let rec = record("05/01/2024", "Coffee Shop Dato 12.05", "45.00", "");
    let entries = import_batch(&vec![rec], 5);
    let text = render_entry(&entries[0]);
    assert_eq!(
        text,
        "2024-05-01 Coffee Shop Dato 12.05\n\tExpenses:Coffee_Shop\tNOK45.00\n\tAssets:DNB:Checking"
    );
}

#[test]
fn deposit_row_becomes_income_entry() {
    let rec = record("05/02/2024", "Salary", "", "120.00");
    let entries = import_batch(&vec![rec], 5);
    assert_eq!(entries.len(), 1);
    let e = &entries[0];
    assert_eq!(e.first.account, "Assets:DNB:Checking");
    assert_eq!(e.first.amount, Amount { mantissa: 12000, scale: 2 });
    assert_eq!(e.second.account, "Income:Salary");
    assert_eq!(e.second.amount, Amount { mantissa: -12000, scale: 2 });
    assert_balanced(e);
    let text = render_entry(e);
    assert_eq!(
        text,
        "2024-05-02 Salary\n\tAssets:DNB:Checking\tNOK120.00\n\tIncome:Salary"
    );
}

#[test]
fn zero_amount_row_produces_no_entry() {
    let rec = record("05/03/2024", "Info row", "0.00", "");
    let entries = import_batch(&vec![rec], 5);
    assert!(entries.is_empty());
}

#[test]
fn absent_amount_row_produces_no_entry_and_no_error() {
    let rec = record("05/03/2024", "Info row", "", "");
    let entries = import_batch(&vec![rec], 5);
    assert!(entries.is_empty());
}

#[test]
fn row_with_both_movements_yields_two_entries() {
    let rec = record("05/04/2024", "Mixed", "10.00", "3.50");
    let entries = import_batch(&vec![rec], 5);
    assert_eq!(entries.len(), 2);
    assert_eq!(entries[0].first.account, "Expenses:Mixed");
    assert_eq!(entries[1].second.account, "Income:Mixed");
    assert_balanced(&entries[0]);
    assert_balanced(&entries[1]);
}

#[test]
fn entries_keep_record_order() {
    let records = vec![
        record("05/01/2024", "Zebra", "1.00", ""),
        record("05/02/2024", "Apple", "2.00", ""),
    ];
    let entries = import_batch(&records, 5);
    assert_eq!(entries.len(), 2);
    assert_eq!(entries[0].narration, "Zebra");
    assert_eq!(entries[1].narration, "Apple");
}

#[test]
fn clustered_records_share_the_canonical_account() {
    let records = vec![
        record("05/01/2024", "AMAZONX1", "1.00", ""),
        record("05/02/2024", "AMAZONX2", "2.00", ""),
        record("05/03/2024", "NETFLIX", "3.00", ""),
    ];
    let entries = import_batch(&records, 1);
    assert_eq!(entries.len(), 3);
    assert_eq!(entries[0].first.account, "Expenses:AMAZONX1");
    assert_eq!(entries[1].first.account, "Expenses:AMAZONX1");
    assert_eq!(entries[2].first.account, "Expenses:NETFLIX");
}

#[test]
fn scale_zero_amount_renders_without_point() {
    let rec = record("05/05/2024", "Whole", "45", "");
    let entries = import_batch(&vec![rec], 5);
    let text = render_entry(&entries[0]);
    assert_eq!(text, "2024-05-05 Whole\n\tExpenses:Whole\tNOK45\n\tAssets:DNB:Checking");
}

#[test]
fn ledger_document_that_parses_is_accepted() {
    assert!(check_ledger_source("").is_ok());
    let text = "2018-10-01 Description\n  TEST:Account 123  $1.20\n  TEST:Account 345  -$1.20\n";
    assert!(check_ledger_source(text).is_ok());
}

#[test]
fn ledger_document_that_does_not_parse_is_refused() {
    let r = check_ledger_source("not a ledger %%%");
    assert!(matches!(r, Err(ImportError::LedgerRead(_))));
}
