use summing_correction::read_levels::{
    check_input, parse_branch, parse_energy, parse_header, parse_obs, read_input, FieldFault,
    FileSection, InputError,
};
use summing_correction::efficiency::{check_efficiency, read_efficiency};
use summing_correction::text::{check_number, parse_index, split_fields, split_lines, trim_bytes};

const THREE_LEVELS: &str = "Energy-Levels\n\
2000.0 1.0 0.0\n\
1000.0 0.0 0.0\n\
0.0 0.0 0.0\n\
\n\
B-Values\n\
0 1 1.0 0.0\n\
1 2 1.0 0.0\n\
\n\
Observed-Values\n\
0 1 100 5\n\
1 2 100 5\n";

fn line_fault(section: &str, line: &str) -> InputError {
    check_input(format!("{section}\n{line}\n").as_bytes()).err().unwrap()
}

fn bad(field: usize, fault: FieldFault) -> InputError {
    InputError::BadField { line: 2, field, fault }
}

#[test]
fn unicode_whitespace_separates_fields() {
    let text = "\u{3000}B-Values\u{a0}\n0\u{2003}1 0.5\u{85}0.1\u{a0}\n";
    assert_eq!(check_input(text.as_bytes()), Ok(()));
    let s = read_input(text.as_bytes());
    assert_eq!((s.branches[0].from, s.branches[0].to), (0, 1));
    assert_eq!(s.branches[0].val, b"0.5".to_vec());
    assert_eq!(s.branches[0].dval, b"0.1".to_vec());
    assert_eq!(split_fields("a\u{2028}b\u{1680}c".as_bytes()), vec![b"a".to_vec(), b"b".to_vec(), b"c".to_vec()]);
    assert_eq!(trim_bytes("\u{205f} x\u{202f}".as_bytes()), b"x".to_vec());
    assert_eq!(split_fields("\u{e9}t\u{e9}".as_bytes()).len(), 1);
}

#[test]
fn header_names_each_section() {
    assert_eq!(parse_header(b"Energy-Levels"), FileSection::EnergyLevels);
    assert_eq!(parse_header(b"B-Values"), FileSection::BValues);
    assert_eq!(parse_header(b"Observed-Values"), FileSection::ObservedValues);
}

#[test]
fn header_must_match_exactly() {
    assert_eq!(check_input("B-Values \u{a0}x\n".as_bytes()).err().unwrap(), InputError::UnknownHeader { line: 1 });
    assert_eq!(check_input(b"B\tValues\n").err().unwrap(), InputError::UnknownHeader { line: 1 });
}

#[test]
fn file_header_may_carry_surrounding_whitespace() {
    let s = read_input(b"  B-Values \t\n0 1 1 0\n");
    assert_eq!(s.branches.len(), 1);
}

#[test]
fn header_is_case_sensitive() {
    assert_eq!(check_input(b"b-values\n").err().unwrap(), InputError::UnknownHeader { line: 1 });
    assert_eq!(check_input(b"Levels\n").err().unwrap(), InputError::UnknownHeader { line: 1 });
    assert_eq!(check_input(b"  \n").err().unwrap(), InputError::UnknownHeader { line: 1 });
}

#[test]
fn energy_line_keeps_text_of_fields() {
    let l = parse_energy(b" 1332.5  0.25 0.01 extra", 4, 9);
    assert_eq!(l.idx, 4);
    assert_eq!(l.line, 9);
    assert_eq!(l.energy, b"1332.5".to_vec());
    assert_eq!(l.feeding, b"0.25".to_vec());
    assert_eq!(l.dfeeding, b"0.01".to_vec());
}

#[test]
fn energy_line_with_text_field_is_refused() {
    assert_eq!(
        line_fault("Energy-Levels", "1332.5 abc 0.01"),
        bad(1, FieldFault::NotANumber)
    );
    assert_eq!(
        line_fault("Energy-Levels", "1332.5 0.2 x"),
        bad(2, FieldFault::NotANumber)
    );
    assert_eq!(
        line_fault("Energy-Levels", "keV 0.2"),
        bad(0, FieldFault::NotANumber)
    );
}

#[test]
fn energy_line_with_two_fields_is_refused() {
    let e = line_fault("Energy-Levels", "1332.5 0.25");
    assert_eq!(e, bad(2, FieldFault::Missing));
}

#[test]
fn branch_line_reads_indices() {
    let b = parse_branch(b"3\t1 0.75 0.05", 12);
    assert_eq!((b.from, b.to, b.line), (3, 1, 12));
    assert_eq!(b.val, b"0.75".to_vec());
    assert_eq!(b.dval, b"0.05".to_vec());
}

#[test]
fn branch_line_faults_in_field_order() {
    assert_eq!(line_fault("B-Values", " "), bad(0, FieldFault::Missing));
    assert_eq!(
        line_fault("B-Values", "x 1 0.5 0.1"),
        bad(0, FieldFault::NotAnIndex)
    );
    assert_eq!(line_fault("B-Values", "2"), bad(1, FieldFault::Missing));
    assert_eq!(
        line_fault("B-Values", "2 -1 0.5 0.1"),
        bad(1, FieldFault::NotAnIndex)
    );
    assert_eq!(
        line_fault("B-Values", "2 1 0.5"),
        bad(3, FieldFault::Missing)
    );
    assert_eq!(
        line_fault("B-Values", "2 1 half 0.1"),
        bad(2, FieldFault::NotANumber)
    );
    assert_eq!(
        line_fault("B-Values", "2 1 0.5 1e"),
        bad(3, FieldFault::NotANumber)
    );
}

#[test]
fn numbers_follow_float_syntax() {
    for good in ["0", "1.", ".5", "-2.5e-3", "+1E10", "inf", "-Infinity", "NaN", "007.10"] {
        assert!(check_number(good.as_bytes()), "{good}");
        assert!(good.parse::<f64>().is_ok());
    }
    for bad in ["", ".", "+", "e5", "1e", "1e+", "1.2.3", "0x10", "infin", "1,5", "--1", "1_0"] {
        assert!(!check_number(bad.as_bytes()), "{bad}");
        assert!(bad.parse::<f64>().is_err());
    }
}

#[test]
fn non_numeric_count_names_line_and_field() {
    let text = "Observed-Values\n0 1 100 5\n1 2 many 5\n";
    assert_eq!(
        check_input(text.as_bytes()).err().unwrap(),
        InputError::BadField { line: 3, field: 2, fault: FieldFault::NotANumber }
    );
}

#[test]
fn efficiency_file_gives_points_in_order() {
    let text = "100 0.5\n  200\t0.25 \n300 0.125 0.01\n";
    let p = read_efficiency(text.as_bytes());
    assert_eq!(
        p,
        vec![
            (b"100".to_vec(), b"0.5".to_vec()),
            (b"200".to_vec(), b"0.25".to_vec()),
            (b"300".to_vec(), b"0.125".to_vec()),
        ]
    );
}

#[test]
fn efficiency_file_faults_name_line_and_field() {
    assert_eq!(
        check_efficiency(b"100 0.5\n200\n").err().unwrap(),
        InputError::BadField { line: 2, field: 1, fault: FieldFault::Missing }
    );
    assert_eq!(
        check_efficiency(b"100 0.5 x\n").err().unwrap(),
        InputError::BadField { line: 1, field: 2, fault: FieldFault::NotANumber }
    );
    assert!(read_efficiency(b"").is_empty());
    assert_eq!(
        check_efficiency(b"100 0.5\n\n200 0.25\n").err().unwrap(),
        InputError::BadField { line: 2, field: 0, fault: FieldFault::Missing }
    );
    assert_eq!(check_efficiency(b"100 0.5\n200 0.25"), Ok(()));
}

#[test]
fn observation_line_reads_counts() {
    let o = parse_obs(b"1 0 1234.5 35.1", 3);
    assert_eq!((o.from, o.to, o.line), (1, 0, 3));
    assert_eq!(o.counts, b"1234.5".to_vec());
    assert_eq!(o.dcounts, b"35.1".to_vec());
    assert_eq!(
        line_fault("Observed-Values", "1 0.5 1234.5 35.1"),
        bad(1, FieldFault::NotAnIndex)
    );
}

#[test]
fn index_accepts_plus_and_refuses_overflow() {
    assert_eq!(parse_index(b"0"), Some(0));
    assert_eq!(parse_index(b"+17"), Some(17));
    assert_eq!(parse_index(b"007"), Some(7));
    assert_eq!(parse_index(b"+"), None);
    assert_eq!(parse_index(b""), None);
    assert_eq!(parse_index(b"1e3"), None);
    assert_eq!(parse_index(b"99999999999999999999999"), None);
    let max = format!("{}", usize::MAX);
    assert_eq!(parse_index(max.as_bytes()), Some(usize::MAX));
}

#[test]
fn fields_split_on_any_whitespace() {
    let f = split_fields(b"  a\tbb \x0c ccc  ");
    assert_eq!(f, vec![b"a".to_vec(), b"bb".to_vec(), b"ccc".to_vec()]);
    assert!(split_fields(b" \t ").is_empty());
}

#[test]
fn trim_removes_both_ends() {
    assert_eq!(trim_bytes(b" \r\tabc d  "), b"abc d".to_vec());
    assert_eq!(trim_bytes(b"   "), Vec::<u8>::new());
}

#[test]
fn lines_split_like_str_lines() {
    assert_eq!(split_lines(b"a\r\nb\n\nc"), vec![b"a".to_vec(), b"b".to_vec(), vec![], b"c".to_vec()]);
    assert_eq!(split_lines(b"a\n"), vec![b"a".to_vec()]);
    assert_eq!(split_lines(b"a\r"), vec![b"a\r".to_vec()]);
    assert!(split_lines(b"").is_empty());
}

#[test]
fn three_level_scheme_is_read() {
    let s = read_input(THREE_LEVELS.as_bytes());
    assert_eq!(s.levels.len(), 3);
    assert_eq!(s.branches.len(), 2);
    assert_eq!(s.observations.len(), 2);
    for (k, l) in s.levels.iter().enumerate() {
        assert_eq!(l.idx, k);
    }
    assert_eq!(s.levels[0].energy, b"2000.0".to_vec());
    assert_eq!(s.levels[0].feeding, b"1.0".to_vec());
    assert_eq!((s.branches[1].from, s.branches[1].to), (1, 2));
    assert_eq!(s.observations[0].counts, b"100".to_vec());
    assert_eq!(s.levels[2].line, 4);
    assert_eq!(s.branches[0].line, 7);
    assert_eq!(s.observations[1].line, 12);
}

#[test]
fn crlf_file_is_read() {
    let text = THREE_LEVELS.replace('\n', "\r\n");
    let s = read_input(text.as_bytes());
    assert_eq!(s.levels.len(), 3);
    assert_eq!(s.observations[1].dcounts, b"5".to_vec());
}

#[test]
fn unknown_header_names_its_line() {
    let text = "Energy-Levels\n0.0 1.0 0.0\n\nGamma-Rays\n0 1 1 0\n";
    assert_eq!(check_input(text.as_bytes()).err().unwrap(), InputError::UnknownHeader { line: 4 });
}

#[test]
fn data_line_without_blank_line_stays_in_section() {
    let text = "B-Values\n0 1 1 0\nObserved-Values\n";
    assert_eq!(
        check_input(text.as_bytes()).err().unwrap(),
        InputError::BadField { line: 3, field: 0, fault: FieldFault::NotAnIndex }
    );
}

#[test]
fn malformed_level_line_names_line_and_field() {
    let text = "Energy-Levels\n100.0 1.0 0.0\n50.0 0.5\n";
    assert_eq!(
        check_input(text.as_bytes()).err().unwrap(),
        InputError::BadField { line: 3, field: 2, fault: FieldFault::Missing }
    );
}

#[test]
fn empty_file_has_empty_scheme() {
    let s = read_input(b"");
    assert!(s.levels.is_empty() && s.branches.is_empty() && s.observations.is_empty());
}

#[test]
fn sections_may_repeat() {
    let text = "Energy-Levels\n10 1 0\n\nEnergy-Levels\n0 0 0\n";
    let s = read_input(text.as_bytes());
    assert_eq!(s.levels.len(), 2);
    assert_eq!(s.levels[1].idx, 1);
    assert_eq!(s.levels[1].energy, b"0".to_vec());
}
