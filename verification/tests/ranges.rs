use block_indexer::error::MalformedArgument;
use block_indexer::range::{parse_block_range, parse_height, BlockRange};

fn args(values: &[&str]) -> Vec<String> {
    values.iter().map(|v| v.to_string()).collect()
}

#[test]
fn no_arguments_continue() {
    assert_eq!(parse_block_range(&args(&[])), Ok(BlockRange::AutoContinue));
}

#[test]
fn two_heights_bound_a_range() {
    assert_eq!(
        parse_block_range(&args(&["100", "200"])),
        Ok(BlockRange::Range { start_inclusive: 100, end_exclusive: Some(200) })
    );
}

#[test]
fn grouping_characters_are_passed_over() {
    assert_eq!(parse_height("124_099_140"), Some(124099140));
    assert_eq!(parse_height("124,099,140"), Some(124099140));
    assert_eq!(parse_height("124.099.140"), Some(124099140));
    assert_eq!(parse_height("124 099 140"), Some(124099140));
    assert_eq!(parse_height(" 1_2,3.4 "), Some(1234));
    assert_eq!(
        parse_block_range(&args(&["124_099_140", "124,099,150"])),
        Ok(BlockRange::Range { start_inclusive: 124099140, end_exclusive: Some(124099150) })
    );
}

#[test]
fn a_leading_plus_is_accepted() {
    assert_eq!(parse_height("+42"), Some(42));
    assert_eq!(parse_height("_+42"), Some(42));
    assert_eq!(parse_height("+"), None);
    assert_eq!(parse_height("++42"), None);
    assert_eq!(parse_height("4+2"), None);
}

#[test]
fn what_is_no_number_is_refused() {
    for text in ["", "_", " . ", "abc", "12a", "-5", "0x10", "1e3", "١٢"] {
        assert_eq!(parse_height(text), None, "{text:?}");
    }
}

#[test]
fn heights_up_to_the_largest_are_read() {
    assert_eq!(parse_height("0"), Some(0));
    assert_eq!(parse_height("007"), Some(7));
    assert_eq!(parse_height("18446744073709551615"), Some(u64::MAX));
    assert_eq!(parse_height("18_446_744_073_709_551_615"), Some(u64::MAX));
    assert_eq!(parse_height("18446744073709551616"), None);
    assert_eq!(parse_height("99999999999999999999999"), None);
    assert_eq!(parse_height("000000000000000000000000000001"), Some(1));
}

#[test]
fn any_other_count_of_arguments_is_malformed() {
    assert_eq!(parse_block_range(&args(&["100"])), Err(MalformedArgument));
    assert_eq!(parse_block_range(&args(&["100", "200", "300"])), Err(MalformedArgument));
}

#[test]
fn a_malformed_height_is_malformed() {
    assert_eq!(parse_block_range(&args(&["100", "x"])), Err(MalformedArgument));
    assert_eq!(parse_block_range(&args(&["", "200"])), Err(MalformedArgument));
    assert_eq!(parse_block_range(&args(&["1", "18446744073709551616"])), Err(MalformedArgument));
}

#[test]
fn parse_agrees_with_the_standard_parser() {
    for text in ["0", "1", "+1", "10", "0010", "", "+", "-1", "1 ", "a", "18446744073709551615"] {
        let stripped: String = text.replace(['_', ',', ' ', '.'], "");
        assert_eq!(parse_height(text), stripped.parse::<u64>().ok(), "{text:?}");
    }
}
