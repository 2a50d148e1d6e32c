use rman::config::{Cmd, RmanStdio};
use rman::procfile::{parse_line_text, parse_procfile, split_words, stdio_from_value};

fn ls(name: &str, stdin: RmanStdio, stdout: RmanStdio) -> Cmd {
    Cmd {
        name: name.to_string(),
        cmd: "ls".to_string(),
        args: vec!["-a".to_string()],
        stdin,
        stdout,
    }
}

#[test]
fn test_parse_procfile() {
    let procfile_stdio_defined =
        "cmd_1: stdin>null stdout>inherit ls -a\ncmd_2: stdin>inherit stdout>null ls -a"
            .to_string();

    let result = parse_procfile(procfile_stdio_defined).unwrap();
    let expected = vec![
        Cmd {
            name: "cmd_1".to_string(),
            cmd: "ls".to_string(),
            args: vec!["-a".to_string()],
            stdin: RmanStdio::Null,
            stdout: RmanStdio::Inherit,
        },
        Cmd {
            name: "cmd_2".to_string(),
            cmd: "ls".to_string(),
            args: vec!["-a".to_string()],
            stdin: RmanStdio::Inherit,
            stdout: RmanStdio::Null,
        },
    ];
    assert_eq!(result, expected);

    let procfile_stdin_defined = "cmd_1: stdin>null ls -a\ncmd_2: stdin>inherit ls -a".to_string();

    let result = parse_procfile(procfile_stdin_defined).unwrap();
    let expected = vec![
        Cmd {
            name: "cmd_1".to_string(),
            cmd: "ls".to_string(),
            args: vec!["-a".to_string()],
            stdin: RmanStdio::Null,
            stdout: RmanStdio::Inherit,
        },
        Cmd {
            name: "cmd_2".to_string(),
            cmd: "ls".to_string(),
            args: vec!["-a".to_string()],
            stdin: RmanStdio::Inherit,
            stdout: RmanStdio::Inherit,
        },
    ];
    assert_eq!(result, expected);

    let procfile_stdout_defined = "cmd_1: stdout>null ls -a\ncmd_2: stdout>null ls -a".to_string();

    let result = parse_procfile(procfile_stdout_defined).unwrap();
    let expected = vec![
        Cmd {
            name: "cmd_1".to_string(),
            cmd: "ls".to_string(),
            args: vec!["-a".to_string()],
            stdin: RmanStdio::Inherit,
            stdout: RmanStdio::Null,
        },
        Cmd {
            name: "cmd_2".to_string(),
            cmd: "ls".to_string(),
            args: vec!["-a".to_string()],
            stdin: RmanStdio::Inherit,
            stdout: RmanStdio::Null,
        },
    ];
    assert_eq!(result, expected);

    let procfile_stdio_file =
        "cmd_1: stdin>file=test_in.txt stdout>file=test_out.txt ls -a\ncmd_2: ls -a".to_string();

    let result = parse_procfile(procfile_stdio_file).unwrap();
    let expected = vec![
        Cmd {
            name: "cmd_1".to_string(),
            cmd: "ls".to_string(),
            args: vec!["-a".to_string()],
            stdin: RmanStdio::File("test_in.txt".to_string()),
            stdout: RmanStdio::File("test_out.txt".to_string()),
        },
        Cmd {
            name: "cmd_2".to_string(),
            cmd: "ls".to_string(),
            args: vec!["-a".to_string()],
            stdin: RmanStdio::Inherit,
            stdout: RmanStdio::Inherit,
        },
    ];
    assert_eq!(result, expected);

    let procfile_stdio_not_defined = "cmd_1: ls -a\ncmd_2: ls -a".to_string();

    let result = parse_procfile(procfile_stdio_not_defined).unwrap();
    let expected = vec![
        Cmd {
            name: "cmd_1".to_string(),
            cmd: "ls".to_string(),
            args: vec!["-a".to_string()],
            stdin: RmanStdio::Inherit,
            stdout: RmanStdio::Inherit,
        },
        Cmd {
            name: "cmd_2".to_string(),
            cmd: "ls".to_string(),
            args: vec!["-a".to_string()],
            stdin: RmanStdio::Inherit,
            stdout: RmanStdio::Inherit,
        },
    ];
    assert_eq!(result, expected);
}

#[test]
fn plain_line_inherits_both_streams() {
    let result = parse_procfile("web_2: echo Hello World".to_string()).unwrap();
    assert_eq!(
        result,
        vec![Cmd {
            name: "web_2".to_string(),
            cmd: "echo".to_string(),
            args: vec!["Hello".to_string(), "World".to_string()],
            stdin: RmanStdio::Inherit,
            stdout: RmanStdio::Inherit,
        }]
    );
}

#[test]
fn program_without_arguments() {
    let result = parse_procfile("a: top".to_string()).unwrap();
    assert_eq!(result.len(), 1);
    assert_eq!(result[0].cmd, "top");
    assert!(result[0].args.is_empty());
}

#[test]
fn empty_body_is_skipped() {
    let result = parse_procfile("a:\nb: ls -a\nc:   \t \nd: stdin>null".to_string()).unwrap();
    assert_eq!(result, vec![ls("b", RmanStdio::Inherit, RmanStdio::Inherit)]);
    assert!(parse_procfile("a:".to_string()).unwrap().is_empty());
    assert!(parse_procfile(String::new()).unwrap().is_empty());
}

#[test]
fn stdin_directive_alone() {
    let result = parse_procfile("a: stdin>null ls -a".to_string()).unwrap();
    assert_eq!(result, vec![ls("a", RmanStdio::Null, RmanStdio::Inherit)]);
}

#[test]
fn stdout_directive_alone() {
    let result = parse_procfile("a: stdout>null ls -a".to_string()).unwrap();
    assert_eq!(result, vec![ls("a", RmanStdio::Inherit, RmanStdio::Null)]);
}

#[test]
fn both_directives_and_none() {
    let both = parse_procfile("a: stdin>null stdout>null ls -a".to_string()).unwrap();
    assert_eq!(both, vec![ls("a", RmanStdio::Null, RmanStdio::Null)]);
    let none = parse_procfile("a: ls -a".to_string()).unwrap();
    assert_eq!(none, vec![ls("a", RmanStdio::Inherit, RmanStdio::Inherit)]);
}

#[test]
fn file_directives() {
    let result =
        parse_procfile("a: stdin>file=in.txt stdout>file=out.txt ls -a".to_string()).unwrap();
    assert_eq!(
        result,
        vec![ls(
            "a",
            RmanStdio::File("in.txt".to_string()),
            RmanStdio::File("out.txt".to_string())
        )]
    );
}

#[test]
fn order_is_preserved() {
    let result = parse_procfile("a: ls -a\nb: ls -a".to_string()).unwrap();
    let names: Vec<&str> = result.iter().map(|c| c.name.as_str()).collect();
    assert_eq!(names, vec!["a", "b"]);
    let reversed = parse_procfile("b: ls -a\na: ls -a".to_string()).unwrap();
    let names: Vec<&str> = reversed.iter().map(|c| c.name.as_str()).collect();
    assert_eq!(names, vec!["b", "a"]);
}

#[test]
fn duplicate_names_coexist() {
    let result = parse_procfile("a: ls -a\na: ls -a".to_string()).unwrap();
    assert_eq!(result.len(), 2);
}

#[test]
fn unknown_directive_values_fall_back_to_inherit() {
    let result = parse_procfile(
        "a: stdin>bogus stdout>pipe ls -a\nb: stdin>file= ls -a".to_string(),
    )
    .unwrap();
    assert_eq!(
        result,
        vec![
            ls("a", RmanStdio::Inherit, RmanStdio::Inherit),
            ls("b", RmanStdio::Inherit, RmanStdio::Inherit)
        ]
    );
}

#[test]
fn directives_out_of_order_are_the_program() {
    let result = parse_procfile("a: stdout>null stdin>null ls".to_string()).unwrap();
    assert_eq!(result[0].stdout, RmanStdio::Null);
    assert_eq!(result[0].cmd, "stdin>null");
    assert_eq!(result[0].args, vec!["ls".to_string()]);
}

#[test]
fn directive_needs_whitespace_after_colon() {
    let result = parse_procfile("a:stdin>null ls".to_string()).unwrap();
    assert_eq!(result[0].stdin, RmanStdio::Inherit);
    assert_eq!(result[0].cmd, "stdin>null");
}

#[test]
fn non_entry_lines_are_ignored() {
    let text = "# a comment\n\nbad-name: ls\n  web: ls\nweb_1: ls -a\r\n:ls".to_string();
    let result = parse_procfile(text).unwrap();
    assert_eq!(result, vec![ls("web_1", RmanStdio::Inherit, RmanStdio::Inherit)]);
}

#[test]
fn single_line_parse() {
    assert_eq!(
        parse_line_text("x: stdin>null ls -a"),
        Some(ls("x", RmanStdio::Null, RmanStdio::Inherit))
    );
    assert_eq!(parse_line_text("x y: ls"), None);
}

#[test]
fn words_split_on_ascii_whitespace() {
    assert_eq!(
        split_words("  ls \t-a\r\n--x  "),
        vec!["ls".to_string(), "-a".to_string(), "--x".to_string()]
    );
    assert!(split_words(" \t ").is_empty());
    assert_eq!(split_words("é ü"), vec!["é".to_string(), "ü".to_string()]);
}

#[test]
fn directive_values() {
    assert_eq!(stdio_from_value("null"), RmanStdio::Null);
    assert_eq!(stdio_from_value("inherit"), RmanStdio::Inherit);
    assert_eq!(stdio_from_value("file=log.txt"), RmanStdio::File("log.txt".to_string()));
    assert_eq!(stdio_from_value("file="), RmanStdio::Inherit);
    assert_eq!(stdio_from_value("nul"), RmanStdio::Inherit);
}
