use bf_machine::errors::BFParseError;
use bf_machine::machine::Status;
use bf_machine::parser::Reader;

const PLENTY: usize = 1_000_000;

fn run(text: &str, input: &[u8]) -> (Reader, Status) {
    let mut reader = Reader::new();
    let status = reader.parse(text.to_string(), &input.to_vec(), PLENTY);
    (reader, status)
}

fn kinds(reader: &Reader) -> Vec<(BFParseError, Option<usize>)> {
    reader.errors().iter().map(|e| (e.e_type, e.e_pos)).collect()
}

#[test]
fn new_reader_has_nothing_to_do() {
    let reader = Reader::new();
    assert_eq!(reader.status(), Status::Finished);
    assert!(reader.errors().is_empty());
    assert!(!reader.has_printable());
    assert!(reader.get_output().is_empty());
    assert!(!reader.wants_input());
}

#[test]
fn max_prog_len_is_a_million() {
    assert_eq!(Reader::MAX_PROG_LEN, 1000000);
}

#[test]
fn parser_unknown_symbol() {
    let (reader, status) = run("++++++q", &[]);
    assert_eq!(status, Status::Failed);
    assert_eq!(kinds(&reader), vec![(BFParseError::IoUndefChar, Some(6))]);
    let e = &reader.errors()[0];
    assert_eq!(e.e_args, Some("q".to_string()));
    assert_eq!(e.e_area, Some("++++++q\n      ^".to_string()));
    assert_eq!(e.e_file, None);
    assert!(!reader.has_printable());
    assert!(reader.get_output().is_empty());
}

#[test]
fn parser_negative_cell_index() {
    let (reader, status) = run("++++<", &[]);
    assert_eq!(status, Status::Failed);
    assert_eq!(kinds(&reader), vec![(BFParseError::CellNegativeIdx, Some(4))]);
    assert_eq!(reader.errors()[0].e_args, Some("<".to_string()));
    assert_eq!(reader.errors()[0].e_area, Some("++++<\n    ^".to_string()));
    assert!(reader.get_output().is_empty());
}

#[test]
fn balanced_loop_prints_nine() {
    let (reader, status) = run("+++[>+++<-]>.", &[]);
    assert_eq!(status, Status::Finished);
    assert!(reader.errors().is_empty());
    assert!(reader.has_printable());
    assert_eq!(reader.get_output(), vec![9u8]);
}

#[test]
fn rerun_gives_the_same_result() {
    let text = "+++[>+++<-]>.,.<<";
    let (first, first_status) = run(text, &[42]);
    let (second, second_status) = run(text, &[42]);
    assert_eq!(first_status, second_status);
    assert_eq!(first.get_output(), second.get_output());
    assert_eq!(kinds(&first), kinds(&second));
    assert_eq!(kinds(&first), vec![(BFParseError::CellNegativeIdx, Some(16))]);

    let mut reused = first;
    let status = reused.parse(text.to_string(), &vec![42], PLENTY);
    assert_eq!(status, second_status);
    assert_eq!(kinds(&reused), kinds(&second));
    assert_eq!(reused.errors().len(), 1);
}

#[test]
fn a_used_reader_starts_over() {
    let mut reader = Reader::new();
    assert_eq!(reader.parse("+++.>++.".to_string(), &vec![], PLENTY), Status::Finished);
    assert_eq!(reader.get_output(), vec![3u8, 2]);
    assert_eq!(reader.parse("+.".to_string(), &vec![], PLENTY), Status::Finished);
    assert_eq!(reader.get_output(), vec![1u8]);
    assert_eq!(reader.parse("q".to_string(), &vec![], PLENTY), Status::Failed);
    assert_eq!(reader.parse("<".to_string(), &vec![], PLENTY), Status::Failed);
    assert_eq!(kinds(&reader), vec![(BFParseError::CellNegativeIdx, Some(0))]);
    assert_eq!(reader.parse(".".to_string(), &vec![], PLENTY), Status::Finished);
    assert_eq!(reader.get_output(), vec![0u8]);
    assert!(reader.errors().is_empty());
}

#[test]
fn empty_program_finishes_at_once() {
    let (reader, status) = run("", &[1, 2, 3]);
    assert_eq!(status, Status::Finished);
    assert!(reader.get_output().is_empty());
    assert!(!reader.has_printable());
}

#[test]
fn whitespace_does_nothing() {
    let (reader, status) = run(" +\n+\t+ . \n", &[]);
    assert_eq!(status, Status::Finished);
    assert_eq!(reader.get_output(), vec![3u8]);
}

#[test]
fn other_whitespace_is_undefined() {
    let (reader, status) = run("+\r\n", &[]);
    assert_eq!(status, Status::Failed);
    assert_eq!(kinds(&reader), vec![(BFParseError::IoUndefChar, Some(1))]);
    assert_eq!(reader.errors()[0].e_args, Some("\r".to_string()));
}

#[test]
fn cell_overflow_stops_the_run() {
    let text = "+".repeat(256);
    let (reader, status) = run(&text, &[]);
    assert_eq!(status, Status::Failed);
    assert_eq!(kinds(&reader), vec![(BFParseError::CellMaxConstrOvrfl, Some(255))]);
    let (reader, status) = run(&"+".repeat(255), &[]);
    assert_eq!(status, Status::Finished);
    assert!(reader.errors().is_empty());
}

#[test]
fn cell_underflow_stops_the_run() {
    let (reader, status) = run("+--", &[]);
    assert_eq!(status, Status::Failed);
    assert_eq!(kinds(&reader), vec![(BFParseError::CellMinConstrOvrfl, Some(2))]);
    assert_eq!(reader.errors()[0].e_args, Some("-".to_string()));
}

#[test]
fn tape_exhausted_stops_the_run() {
    let fits = ">".repeat(29999);
    let (_, status) = run(&fits, &[]);
    assert_eq!(status, Status::Finished);
    let text = ">".repeat(30000);
    let (reader, status) = run(&text, &[]);
    assert_eq!(status, Status::Failed);
    assert_eq!(kinds(&reader), vec![(BFParseError::CellNoMore, Some(29999))]);
    assert_eq!(
        reader.errors()[0].e_area,
        Some(format!("{}\n{}^", ">".repeat(11), " ".repeat(10)))
    );
}

#[test]
fn only_the_first_fault_is_recorded() {
    let (reader, status) = run("<q-", &[]);
    assert_eq!(status, Status::Failed);
    assert_eq!(kinds(&reader), vec![(BFParseError::CellNegativeIdx, Some(0))]);
}

#[test]
fn output_is_withheld_after_a_fault() {
    let (reader, status) = run("+.+.q", &[]);
    assert_eq!(status, Status::Failed);
    assert!(!reader.has_printable());
    assert!(reader.get_output().is_empty());
}

#[test]
fn input_is_read_byte_by_byte() {
    let (reader, status) = run(",.,.,.", &[7, 0, 255]);
    assert_eq!(status, Status::Finished);
    assert_eq!(reader.get_output(), vec![7u8, 0, 255]);
}

#[test]
fn unused_input_is_no_error() {
    let (reader, status) = run(",+.", &[1, 2, 3]);
    assert_eq!(status, Status::Finished);
    assert_eq!(reader.get_output(), vec![2u8]);
}

#[test]
fn missing_input_stops_the_run() {
    let (reader, status) = run("+,.,.", &[5]);
    assert_eq!(status, Status::Failed);
    assert_eq!(kinds(&reader), vec![(BFParseError::IoStdinErr, Some(3))]);
    assert_eq!(reader.errors()[0].e_args, Some(",".to_string()));
    assert_eq!(reader.errors()[0].e_area, Some("+,.,.\n   ^".to_string()));
    assert!(reader.get_output().is_empty());
    assert_eq!(
        reader.errors()[0].render(),
        "<!> Description: Error while reading from stdin\n<!> Position: 3\n+,.,.\n   ^\n"
    );
}

#[test]
fn loop_over_zero_is_skipped() {
    let (reader, status) = run("[+.q]+.", &[]);
    assert_eq!(status, Status::Finished);
    assert_eq!(reader.get_output(), vec![1u8]);
}

#[test]
fn nested_loops_multiply() {
    let (reader, status) = run("++[>+++[>++++<-]<-]>>.", &[]);
    assert_eq!(status, Status::Finished);
    assert_eq!(reader.get_output(), vec![24u8]);
}

#[test]
fn echo_until_zero() {
    let (reader, status) = run(",[.,]", &[104, 105, 0, 33]);
    assert_eq!(status, Status::Finished);
    assert_eq!(reader.get_output(), vec![104u8, 105]);
}

#[test]
fn unmatched_brackets_keep_the_program_from_running() {
    let (reader, status) = run("+.[[][]", &[]);
    assert_eq!(status, Status::Failed);
    assert_eq!(kinds(&reader), vec![(BFParseError::BraNoClose, Some(2))]);
    assert_eq!(reader.errors()[0].e_area, Some("+.[[][]\n  ^".to_string()));
    assert_eq!(reader.errors()[0].e_args, None);
    assert!(reader.get_output().is_empty());
    assert_eq!(
        reader.errors()[0].render(),
        "<!> Description: Opening bracket without closing\n<!> Position: 2\n+.[[][]\n  ^\n"
    );
}

#[test]
fn bracket_errors_come_as_a_batch() {
    let (reader, status) = run("q][[<", &[]);
    assert_eq!(status, Status::Failed);
    assert_eq!(
        kinds(&reader),
        vec![
            (BFParseError::BraNoOpen, Some(1)),
            (BFParseError::BraNoClose, Some(3)),
            (BFParseError::BraNoClose, Some(2)),
        ]
    );
    let areas: Vec<Option<String>> = reader.errors().iter().map(|e| e.e_area.clone()).collect();
    assert_eq!(
        areas,
        vec![
            Some("q][[<\n ^".to_string()),
            Some("q][[<\n   ^".to_string()),
            Some("q][[<\n  ^".to_string()),
        ]
    );
}

#[test]
fn endless_loop_runs_out_of_steps() {
    let mut reader = Reader::new();
    let status = reader.parse("+[]".to_string(), &vec![], 1000);
    assert_eq!(status, Status::Running);
    assert!(reader.errors().is_empty());
    assert!(!reader.has_printable());
    assert!(reader.get_output().is_empty());
}

#[test]
fn steps_are_counted_per_symbol() {
    let mut reader = Reader::new();
    assert_eq!(reader.parse("+.".to_string(), &vec![], 0), Status::Running);
    assert_eq!(reader.parse("+.".to_string(), &vec![], 1), Status::Running);
    assert!(reader.get_output().is_empty());
    assert_eq!(reader.parse("+.".to_string(), &vec![], 2), Status::Finished);
    assert_eq!(reader.get_output(), vec![1u8]);
    // a jump lands on the partner, which takes a step of its own
    assert_eq!(reader.parse("[]".to_string(), &vec![], 1), Status::Running);
    assert_eq!(reader.parse("[]".to_string(), &vec![], 2), Status::Finished);
    assert_eq!(reader.parse("+[-]".to_string(), &vec![], 3), Status::Running);
    assert_eq!(reader.parse("+[-]".to_string(), &vec![], 4), Status::Finished);
    assert_eq!(reader.parse("++[-]".to_string(), &vec![], 7), Status::Running);
    assert_eq!(reader.parse("++[-]".to_string(), &vec![], 8), Status::Finished);
}

#[test]
fn load_resolves_without_running() {
    let mut reader = Reader::new();
    assert_eq!(reader.load("+.".to_string()), Status::Running);
    assert_eq!(reader.status(), Status::Running);
    assert!(reader.get_output().is_empty());
    assert_eq!(reader.load("".to_string()), Status::Finished);
    assert_eq!(reader.load("]".to_string()), Status::Failed);
    assert_eq!(kinds(&reader), vec![(BFParseError::BraNoOpen, Some(0))]);
    assert_eq!(reader.errors()[0].e_area, Some("]\n^".to_string()));
}

#[test]
fn stepping_by_hand() {
    let mut reader = Reader::new();
    assert_eq!(reader.load(",.,".to_string()), Status::Running);
    assert!(reader.wants_input());
    assert_eq!(reader.step(Some(65)), Status::Running);
    assert!(!reader.wants_input());
    // a byte offered to a symbol that reads none is ignored
    assert_eq!(reader.step(Some(66)), Status::Running);
    assert!(reader.wants_input());
    assert_eq!(reader.step(None), Status::Failed);
    assert_eq!(kinds(&reader), vec![(BFParseError::IoStdinErr, Some(2))]);
    assert_eq!(reader.step(Some(1)), Status::Failed);
    assert_eq!(reader.errors().len(), 1);
}

#[test]
fn stepping_a_finished_reader_changes_nothing() {
    let mut reader = Reader::new();
    assert_eq!(reader.load("+.".to_string()), Status::Running);
    assert_eq!(reader.step(None), Status::Running);
    assert_eq!(reader.step(None), Status::Finished);
    assert_eq!(reader.get_output(), vec![1u8]);
    assert_eq!(reader.step(None), Status::Finished);
    assert_eq!(reader.step(Some(9)), Status::Finished);
    assert_eq!(reader.get_output(), vec![1u8]);
}

#[test]
fn program_of_characters_beyond_ascii() {
    let (reader, status) = run("+é+", &[]);
    assert_eq!(status, Status::Failed);
    assert_eq!(kinds(&reader), vec![(BFParseError::IoUndefChar, Some(1))]);
    assert_eq!(reader.errors()[0].e_args, Some("é".to_string()));
    assert_eq!(reader.errors()[0].e_area, Some("+é+\n ^".to_string()));
}
