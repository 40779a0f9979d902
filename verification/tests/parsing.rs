use myshell::instruction::{Instruction, StdoutTo};
use myshell::text_processing::{parse_input, parse_line, ParseError};

fn stages(line: &str) -> Vec<Instruction> {
    parse_line(line, Some("/home/user")).unwrap()
}

fn words(stage: &Instruction) -> Vec<&str> {
    stage.command.iter().map(|s| s.as_str()).collect()
}

#[test]
fn pipe_yields_two_stages() {
    let parsed = stages("echo hello | cat");
    assert_eq!(parsed.len(), 2);
    assert_eq!(words(&parsed[0]), vec!["echo", "hello"]);
    assert_eq!(parsed[0].stdout_to, StdoutTo::Pipe);
    assert!(!parsed[0].read_from_pipe);
    assert_eq!(words(&parsed[1]), vec!["cat"]);
    assert!(parsed[1].read_from_pipe);
    assert_eq!(parsed[1].stdout_to, StdoutTo::Stdout);
}

#[test]
fn redirect_overwrites() {
    let parsed = stages("echo hi > out.txt");
    assert_eq!(parsed.len(), 1);
    assert_eq!(parsed[0].stdout_to, StdoutTo::File('o'));
    assert_eq!(parsed[0].filename, "out.txt");
    assert_eq!(words(&parsed[0]), vec!["echo", "hi"]);
    assert!(parsed[0].subcommand_indices.is_empty());
    assert!(!parsed[0].read_from_pipe);
}

#[test]
fn double_redirect_appends() {
    let parsed = stages("echo hi >> out.txt");
    assert_eq!(parsed.len(), 1);
    assert_eq!(parsed[0].stdout_to, StdoutTo::File('a'));
    assert_eq!(parsed[0].filename, "out.txt");
    assert_eq!(words(&parsed[0]), vec!["echo", "hi"]);
    assert!(parsed[0].subcommand_indices.is_empty());
    assert!(!parsed[0].read_from_pipe);
}

#[test]
fn subcommand_is_recorded() {
    let parsed = stages("echo ${echo inner}");
    assert_eq!(parsed.len(), 1);
    assert_eq!(words(&parsed[0]), vec!["echo", "echo inner"]);
    assert_eq!(parsed[0].subcommand_indices, vec![1]);
    assert_eq!(parsed[0].stdout_to, StdoutTo::Stdout);
}

#[test]
fn empty_line_has_no_stages() {
    assert!(stages("").is_empty());
    assert!(stages("   \t ").is_empty());
}

#[test]
fn consecutive_pipes_make_no_empty_stage() {
    let parsed = stages("a | | b ||| c");
    assert_eq!(parsed.len(), 3);
    assert_eq!(words(&parsed[0]), vec!["a"]);
    assert_eq!(words(&parsed[1]), vec!["b"]);
    assert_eq!(words(&parsed[2]), vec!["c"]);
    assert_eq!(parsed[0].stdout_to, StdoutTo::Pipe);
    assert_eq!(parsed[1].stdout_to, StdoutTo::Pipe);
    assert_eq!(parsed[2].stdout_to, StdoutTo::Stdout);
    assert!(parsed[1].read_from_pipe);
    assert!(parsed[2].read_from_pipe);
}

#[test]
fn leading_pipe_starts_no_stage() {
    let parsed = stages("| cat");
    assert_eq!(parsed.len(), 1);
    assert_eq!(words(&parsed[0]), vec!["cat"]);
    assert_eq!(parsed[0].stdout_to, StdoutTo::Stdout);
    assert!(!parsed[0].read_from_pipe);
}

#[test]
fn trailing_pipe_keeps_the_route() {
    let parsed = stages("ls |");
    assert_eq!(parsed.len(), 1);
    assert_eq!(parsed[0].stdout_to, StdoutTo::Pipe);
}

#[test]
fn quotes_are_stripped_and_protect() {
    let parsed = stages("echo \"a | b\" 'c > d' \"it's\" '~' \"${x}\"");
    assert_eq!(parsed.len(), 1);
    assert_eq!(words(&parsed[0]), vec!["echo", "a | b", "c > d", "it's", "~", "${x}"]);
    assert_eq!(parsed[0].stdout_to, StdoutTo::Stdout);
    assert!(parsed[0].subcommand_indices.is_empty());
}

#[test]
fn quotes_join_with_their_neighbours() {
    let parsed = stages("a\"b c\"d ''");
    assert_eq!(parsed.len(), 1);
    assert_eq!(words(&parsed[0]), vec!["ab cd"]);
}

#[test]
fn unmatched_quote_runs_to_the_end() {
    let parsed = stages("echo \"a | b");
    assert_eq!(parsed.len(), 1);
    assert_eq!(words(&parsed[0]), vec!["echo", "a | b"]);
}

#[test]
fn first_redirect_wins() {
    let parsed = stages("echo hi > a >> b");
    assert_eq!(parsed.len(), 1);
    assert_eq!(parsed[0].stdout_to, StdoutTo::File('o'));
    assert_eq!(parsed[0].filename, "b");
    assert_eq!(words(&parsed[0]), vec!["echo", "hi"]);
}

#[test]
fn pipe_does_not_downgrade_a_file_route() {
    let parsed = stages("echo hi > out | cat");
    assert_eq!(parsed.len(), 2);
    assert_eq!(parsed[0].stdout_to, StdoutTo::File('o'));
    assert_eq!(parsed[0].filename, "out");
    assert_eq!(words(&parsed[1]), vec!["cat"]);
    assert!(!parsed[1].read_from_pipe);
}

#[test]
fn redirect_without_a_name_parses() {
    let parsed = stages("echo hi >");
    assert_eq!(parsed.len(), 1);
    assert_eq!(parsed[0].stdout_to, StdoutTo::File('o'));
    assert_eq!(parsed[0].filename, "");
    let parsed = stages("echo hi >>");
    assert_eq!(parsed[0].stdout_to, StdoutTo::File('a'));
    assert_eq!(parsed[0].filename, "");
}

#[test]
fn separated_redirects_do_not_append() {
    let parsed = stages("echo hi > > out");
    assert_eq!(parsed[0].stdout_to, StdoutTo::File('o'));
    assert_eq!(parsed[0].filename, "out");
}

#[test]
fn nested_subcommands_stay_as_text() {
    let parsed = stages("echo ${cat ${echo f} | wc \"a b\" > x ~} end");
    assert_eq!(parsed.len(), 1);
    assert_eq!(
        words(&parsed[0]),
        vec!["echo", "cat ${echo f} | wc \"a b\" > x ~", "end"]
    );
    assert_eq!(parsed[0].subcommand_indices, vec![1]);
    assert_eq!(parsed[0].stdout_to, StdoutTo::Stdout);
}

#[test]
fn several_subcommands_are_recorded_in_order() {
    let parsed = stages("${a} b ${c} | ${d}");
    assert_eq!(parsed.len(), 2);
    assert_eq!(words(&parsed[0]), vec!["a", "b", "c"]);
    assert_eq!(parsed[0].subcommand_indices, vec![0, 2]);
    assert_eq!(words(&parsed[1]), vec!["d"]);
    assert_eq!(parsed[1].subcommand_indices, vec![0]);
}

#[test]
fn empty_subcommand_is_an_argument() {
    let parsed = stages("echo ${}");
    assert_eq!(words(&parsed[0]), vec!["echo", ""]);
    assert_eq!(parsed[0].subcommand_indices, vec![1]);
}

#[test]
fn unclosed_subcommand_ends_as_a_token() {
    let parsed = stages("echo ${date");
    assert_eq!(parsed.len(), 1);
    assert_eq!(words(&parsed[0]), vec!["echo", "date"]);
    assert!(parsed[0].subcommand_indices.is_empty());
}

#[test]
fn lone_dollar_and_braces_are_text() {
    let parsed = stages("echo $x {y} a}b");
    assert_eq!(words(&parsed[0]), vec!["echo", "$x", "{y}", "a}b"]);
    assert!(parsed[0].subcommand_indices.is_empty());
}

#[test]
fn tilde_expands_to_home() {
    let parsed = stages("cd ~/src ~");
    assert_eq!(words(&parsed[0]), vec!["cd", "/home/user/src", "/home/user"]);
}

#[test]
fn tilde_without_home_fails() {
    assert_eq!(parse_line("cd ~", None).unwrap_err(), ParseError::HomeUnavailable);
    assert_eq!(parse_line("ls | cat ~/x", None).unwrap_err(), ParseError::HomeUnavailable);
}

#[test]
fn protected_tilde_needs_no_home() {
    let parsed = parse_line("echo '~' ${ls ~} \"~\"", None).unwrap();
    assert_eq!(words(&parsed[0]), vec!["echo", "~", "ls ~", "~"]);
}

#[test]
fn lines_without_tilde_never_fail() {
    for line in ["", "a", "a | b > c", "\"open", "${open", "a >> b | c ${d | e}"] {
        assert!(parse_line(line, None).is_ok());
        assert!(parse_input(line).is_ok());
    }
}

#[test]
fn parse_input_agrees_where_home_is_not_needed() {
    let a = parse_input("echo hello | cat > out").unwrap();
    let b = parse_line("echo hello | cat > out", None).unwrap();
    assert_eq!(a.len(), b.len());
    for (x, y) in a.iter().zip(b.iter()) {
        assert_eq!(x.command, y.command);
        assert_eq!(x.stdout_to, y.stdout_to);
        assert_eq!(x.filename, y.filename);
        assert_eq!(x.subcommand_indices, y.subcommand_indices);
        assert_eq!(x.read_from_pipe, y.read_from_pipe);
    }
}

#[test]
fn token_before_redirect_runs_on() {
    let parsed = stages("echo hi>out");
    assert_eq!(words(&parsed[0]), vec!["echo"]);
    assert_eq!(parsed[0].filename, "hiout");
}

#[test]
fn whitespace_of_every_kind_separates() {
    let parsed = stages("a\tb\u{a0}c\u{2003}d\u{3000}e\nf");
    assert_eq!(words(&parsed[0]), vec!["a", "b", "c", "d", "e", "f"]);
}

#[test]
fn non_ascii_text_is_kept() {
    let parsed = stages("echo héllo > ö.txt");
    assert_eq!(words(&parsed[0]), vec!["echo", "héllo"]);
    assert_eq!(parsed[0].filename, "ö.txt");
}

#[test]
fn stages_are_well_formed() {
    for line in ["a ${b} ${c} > f | d", "${x}${y}", "ls | ${a} >> b"] {
        for stage in stages(line) {
            assert!(stage.is_well_formed());
            assert!(!stage.command.is_empty());
        }
    }
}

#[test]
fn trailing_whitespace_changes_nothing() {
    for line in ["echo hi", "a | b > c", "ls ${x y} |", "echo 'a b' \"c\"", "", "x>>y", "a $"] {
        for tail in [" ", "   ", "\t", " \n", "\u{a0}\u{3000} "] {
            let plain = stages(line);
            let padded = stages(&format!("{}{}", line, tail));
            assert_eq!(plain, padded, "{:?} with {:?}", line, tail);
        }
    }
}

#[test]
fn whitespace_inside_open_quotes_is_kept() {
    assert_eq!(words(&stages("echo \"a ")[0]), vec!["echo", "a "]);
    assert_eq!(words(&stages("echo ${a ")[0]), vec!["echo", "a "]);
}

#[test]
fn words_and_pipes_split_a_line() {
    let lists = [
        vec![vec!["echo", "hello", "world"]],
        vec![vec!["a"], vec!["b"]],
        vec![vec!["cat", "f", "{g}"], vec!["sort", "-r"], vec!["uniq"], vec!["wc", "-l", "x}y"]],
    ];
    for list in lists {
        let line = list.iter().map(|stage| stage.join(" ")).collect::<Vec<_>>().join(" | ");
        let parsed = stages(&line);
        assert_eq!(parsed.len(), list.len());
        for (k, stage) in parsed.iter().enumerate() {
            assert_eq!(words(stage), list[k]);
            assert_eq!(stage.read_from_pipe, k > 0);
            let route = if k + 1 < list.len() { StdoutTo::Pipe } else { StdoutTo::Stdout };
            assert_eq!(stage.stdout_to, route);
            assert_eq!(stage.filename, "");
            assert!(stage.subcommand_indices.is_empty());
        }
    }
}
