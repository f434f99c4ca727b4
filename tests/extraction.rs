use email_extract::cli::{args_validate, usage_message, Failure};
use email_extract::extract::{collect_matches, dedupe, file_process};
use email_extract::output::{join_lines, render};
use email_extract::pattern::EmailPattern;

fn strings(items: &[&str]) -> Vec<String> {
    items.iter().map(|s| s.to_string()).collect()
}

fn pattern() -> EmailPattern {
    match EmailPattern::new() {
        Ok(p) => p,
        Err(e) => panic!("pattern did not compile: {:?}", e),
    }
}

#[test]
fn adjacent_duplicates_collapse_but_distant_ones_stay() {
    let list = strings(&["A", "A", "B", "A"]);
    assert_eq!(dedupe(&list), strings(&["A", "B", "A"]));
}

#[test]
fn dedupe_of_nothing_is_nothing() {
    assert_eq!(dedupe(&Vec::new()), Vec::<String>::new());
}

#[test]
fn dedupe_collapses_long_runs() {
    let list = strings(&["x", "x", "x", "y", "y", "x"]);
    assert_eq!(dedupe(&list), strings(&["x", "y", "x"]));
}

#[test]
fn scenario_three_lines() {
    let lines = strings(&["contact: a@b.com, again a@b.com", "other: c@d.org", "a@b.com only"]);
    let p = pattern();
    assert_eq!(
        collect_matches(&p, &lines),
        strings(&["a@b.com", "a@b.com", "c@d.org", "a@b.com"])
    );
    assert_eq!(file_process(&p, &lines), strings(&["a@b.com", "c@d.org", "a@b.com"]));
    assert_eq!(render(&p, &lines), "a@b.com\nc@d.org\na@b.com");
}

#[test]
fn empty_input_gives_empty_output() {
    let p = pattern();
    assert_eq!(render(&p, &Vec::new()), "");
    assert_eq!(render(&p, &strings(&["", "no address here"])), "");
}

#[test]
fn uppercase_addresses_are_not_matched() {
    let p = pattern();
    assert!(p.matches_in("User@Example.COM").is_empty());
    assert_eq!(render(&p, &strings(&["write to User@Example.COM today"])), "");
}

#[test]
fn matches_in_finds_each_address_left_to_right() {
    let p = pattern();
    assert_eq!(
        p.matches_in("contact: a@b.com, again a@b.com"),
        strings(&["a@b.com", "a@b.com"])
    );
    assert_eq!(p.matches_in("first z@y.net then m.n@k.org."), strings(&["z@y.net", "m.n@k.org"]));
}

#[test]
fn matches_need_a_dotted_domain() {
    let p = pattern();
    assert!(p.matches_in("root@localhost").is_empty());
    assert!(p.matches_in("no at sign here.com").is_empty());
}

#[test]
fn quoted_local_part_and_address_literal_match() {
    let p = pattern();
    assert_eq!(p.matches_in("\"john.doe\"@example.com"), strings(&["\"john.doe\"@example.com"]));
    assert_eq!(p.matches_in("at x@[192.168.1.1] now"), strings(&["x@[192.168.1.1]"]));
    assert_eq!(p.matches_in("y@[1.2.3.4]"), strings(&["y@[1.2.3.4]"]));
}

#[test]
fn order_is_kept_not_sorted() {
    let p = pattern();
    let lines = strings(&["z@z.com", "a@a.com m@m.com"]);
    assert_eq!(file_process(&p, &lines), strings(&["z@z.com", "a@a.com", "m@m.com"]));
}

#[test]
fn second_run_writes_the_same_text() {
    let p = pattern();
    let lines = strings(&["q@r.io x@y.com", "q@r.io"]);
    let first = render(&p, &lines);
    let second = render(&p, &lines);
    assert_eq!(first, second);
    assert_eq!(first, "q@r.io\nx@y.com\nq@r.io");
}

#[test]
fn join_lines_puts_one_line_feed_between_items() {
    assert_eq!(join_lines(&Vec::new()), "");
    assert_eq!(join_lines(&strings(&["one"])), "one");
    assert_eq!(join_lines(&strings(&["a", "b", "c"])), "a\nb\nc");
}

#[test]
fn wrong_argument_counts_are_refused() {
    assert!(args_validate(&Vec::new()).is_err());
    assert!(args_validate(&strings(&["prog"])).is_err());
    assert!(args_validate(&strings(&["prog", "in.txt"])).is_err());
    assert!(args_validate(&strings(&["prog", "in.txt", "out.txt", "extra"])).is_err());
    assert!(args_validate(&strings(&["prog", "in.txt", "out.txt"])).is_ok());
}

#[test]
fn usage_message_names_the_program() {
    assert_eq!(usage_message("/", "extract"), "Usage: ./extract <input_file> <output_file>");
}

#[test]
fn failure_messages_carry_the_cause() {
    assert_eq!(Failure::Open.message("not found"), "Failed to open file: not found");
    assert_eq!(Failure::Metadata.message("x"), "Failed to process file metadata: x");
    assert_eq!(Failure::Scan.message("bad utf-8"), "Failed to process file contents: bad utf-8");
    assert_eq!(Failure::Write.message("denied"), "Error writing to file: denied");
}
