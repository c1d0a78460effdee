use glob::{MatchOptions, Pattern};
use zellij_ssh_manager::parser::{
    is_concrete_alias, tokenize, ConfigParser, ParseResult, ParseStep, MAX_INCLUDE_DEPTH,
};
use zellij_ssh_manager::worker::split_words;
use zellij_ssh_manager::path::{expand_include, join_path, normalize_path, path_less, sort_paths};

/// An in-memory file system: paths and contents.
struct Files(Vec<(String, String)>);

impl Files {
    fn new() -> Self {
        Files(Vec::new())
    }

    fn write(&mut self, path: &str, contents: &str) -> String {
        self.0.push((path.to_owned(), contents.to_owned()));
        path.to_owned()
    }

    fn read(&self, path: &str) -> Option<String> {
        self.0.iter().find(|(p, _)| p == path).map(|(_, c)| c.clone())
    }
}

/// Drives the parser over the in-memory files, as the plugin drives it over
/// the real ones: canonical paths are the normalised ones of existing files,
/// and globbing matches the existing paths in alphabetical order.
fn parse(files: &Files, config: &str, home: &str) -> ParseResult {
    let mut parser = ConfigParser::new(config, home);
    let mut steps = 0;
    loop {
        steps += 1;
        assert!(steps < 100_000, "the parser does not finish");
        match parser.next_step() {
            ParseStep::Open { path } => {
                let canonical = files.read(&path).map(|_| normalize_path(&path));
                if parser.open_file(canonical) {
                    let contents = files
                        .read(&path)
                        .ok_or_else(|| "No such file or directory (os error 2)".to_owned());
                    parser.file_read(contents);
                }
            }
            ParseStep::Expand { pattern } => match Pattern::new(&pattern) {
                Ok(glob) => {
                    let options = MatchOptions {
                        require_literal_separator: true,
                        ..MatchOptions::new()
                    };
                    let mut matches: Vec<String> = files
                        .0
                        .iter()
                        .map(|(p, _)| p.clone())
                        .filter(|p| glob.matches_with(p, options))
                        .collect();
                    matches.sort();
                    parser.expansion_listed(matches.into_iter().map(Ok).collect());
                }
                Err(error) => parser.expansion_failed(&error.to_string()),
            },
            ParseStep::Proceed => {}
            ParseStep::Done => return parser.finish(),
        }
    }
}

#[test]
fn parses_multiple_aliases_quotes_comments_and_patterns() {
    let mut files = Files::new();
    let config = files.write(
        "/home/u/.ssh/config",
        "Host alpha \"quoted-host\" *.example !blocked question? # ignored\n\
         Host alpha beta\\ host\n\
         Host='equals-host'\n\
         Host 'unterminated\n\
         Host omega\n",
    );

    let parsed = parse(&files, &config, "/home/u");

    assert_eq!(
        parsed.hosts,
        vec!["alpha", "quoted-host", "beta host", "equals-host", "omega"]
    );
    assert_eq!(parsed.warnings.len(), 1);
    assert!(parsed.warnings[0].contains("unterminated quote"));
}

#[test]
fn expands_recursive_include_globs_in_sorted_order() {
    let mut files = Files::new();
    let config = files.write(
        "/home/u/.ssh/config",
        "Host first\nInclude conf.d/*.conf\nHost last\n",
    );
    files.write("/home/u/.ssh/conf.d/20.conf", "Host twenty\n");
    files.write("/home/u/.ssh/conf.d/10.conf", "Host ten\nInclude nested/*.conf\n");
    files.write("/home/u/.ssh/nested/deep.conf", "Host deep\n");

    let parsed = parse(&files, &config, "/home/u");

    assert_eq!(parsed.hosts, vec!["first", "ten", "deep", "twenty", "last"]);
    assert!(parsed.warnings.is_empty());
}

#[test]
fn expands_home_include_and_deduplicates_in_first_seen_order() {
    let mut files = Files::new();
    let config = files.write(
        "/home/u/.ssh/config",
        "Host shared root\nInclude ~/.ssh/extra\nHost tail shared\n",
    );
    files.write("/home/u/.ssh/extra", "Host included shared\n");

    let parsed = parse(&files, &config, "/home/u");

    assert_eq!(parsed.hosts, vec!["shared", "root", "included", "tail"]);
}

#[test]
fn include_cycles_are_ignored() {
    let mut files = Files::new();
    let config = files.write("/home/u/.ssh/config", "Host root\nInclude a.conf\n");
    files.write("/home/u/.ssh/a.conf", "Host a\nInclude b.conf\n");
    files.write("/home/u/.ssh/b.conf", "Host b\nInclude a.conf\n");

    let parsed = parse(&files, &config, "/home/u");

    assert_eq!(parsed.hosts, vec!["root", "a", "b"]);
    assert!(parsed.warnings.is_empty());
}

#[test]
fn reports_missing_root_without_panicking() {
    let files = Files::new();
    let parsed = parse(&files, "/home/u/missing", "/home/u");

    assert!(parsed.hosts.is_empty());
    assert_eq!(parsed.warnings.len(), 1);
    assert!(parsed.warnings[0].contains("missing"));
}

#[test]
fn limits_include_depth() {
    let mut files = Files::new();
    for depth in 0..=MAX_INCLUDE_DEPTH + 1 {
        let next = if depth <= MAX_INCLUDE_DEPTH {
            format!("Include {}.conf\n", depth + 1)
        } else {
            String::new()
        };
        files.write(
            &format!("/home/u/.ssh/{depth}.conf"),
            &format!("Host host-{depth}\n{next}"),
        );
    }

    let parsed = parse(&files, "/home/u/.ssh/0.conf", "/home/u");

    assert_eq!(parsed.hosts.len(), MAX_INCLUDE_DEPTH + 1);
    assert!(parsed
        .warnings
        .iter()
        .any(|warning| warning.contains("maximum Include depth")));
}

#[test]
fn depth_warning_names_the_limit_and_the_file() {
    let mut files = Files::new();
    for depth in 0..=MAX_INCLUDE_DEPTH + 1 {
        files.write(
            &format!("/c/{depth}.conf"),
            &format!("Include {}.conf\n", depth + 1),
        );
    }
    let parsed = parse(&files, "/c/0.conf", "/h");
    assert_eq!(
        parsed.warnings,
        vec!["maximum Include depth (16) exceeded at /c/17.conf"]
    );
}

#[test]
fn tokenizer_handles_quotes_escapes_and_comments() {
    assert_eq!(
        tokenize("  Host  a 'b c' \"d\\\"e\" f\\ g # h").unwrap(),
        vec!["Host", "a", "b c", "d\"e", "f g"]
    );
    assert_eq!(tokenize("Host a\\").unwrap(), vec!["Host", "a\\"]);
    assert_eq!(tokenize("Host ''").unwrap(), vec!["Host"]);
    assert_eq!(tokenize("# only a comment").unwrap(), Vec::<String>::new());
    assert_eq!(tokenize("").unwrap(), Vec::<String>::new());
    assert_eq!(tokenize("Host \"open"), Err("unterminated quote"));
    assert_eq!(tokenize("a'#'b").unwrap(), vec!["a#b"]);
}

#[test]
fn concrete_aliases_have_no_wildcards() {
    assert!(is_concrete_alias("prod-1"));
    assert!(!is_concrete_alias(""));
    assert!(!is_concrete_alias("*.example"));
    assert!(!is_concrete_alias("host?"));
    assert!(!is_concrete_alias("!blocked"));
}

#[test]
fn line_warnings_carry_file_and_line_number() {
    let mut files = Files::new();
    let config = files.write("/c/config", "Host a\n\nHost \"b\n");
    let parsed = parse(&files, &config, "/h");
    assert_eq!(parsed.hosts, vec!["a"]);
    assert_eq!(parsed.warnings, vec!["/c/config:3: unterminated quote"]);
}

#[test]
fn keywords_ignore_case_and_accept_equals() {
    let mut files = Files::new();
    let config = files.write(
        "/c/config",
        "HOST one\nhost=two three\nHostName=ignored\nhost= four\nInClUdE=extra\n",
    );
    files.write("/c/extra", "hOsT five\n");
    let parsed = parse(&files, &config, "/h");
    assert_eq!(parsed.hosts, vec!["one", "two", "three", "four", "five"]);
}

#[test]
fn unreadable_and_invalid_includes_give_warnings() {
    let mut parser = ConfigParser::new("/c/config", "/h");
    assert_eq!(
        parser.next_step(),
        ParseStep::Open {
            path: "/c/config".to_owned()
        }
    );
    assert!(parser.open_file(None));
    parser.file_read(Ok("Include x y\n".to_owned()));
    assert_eq!(parser.next_step(), ParseStep::Proceed);
    assert_eq!(
        parser.next_step(),
        ParseStep::Expand {
            pattern: "/c/x".to_owned()
        }
    );
    parser.expansion_failed("bad pattern");
    assert_eq!(
        parser.next_step(),
        ParseStep::Expand {
            pattern: "/c/y".to_owned()
        }
    );
    parser.expansion_listed(vec![
        Err("permission denied".to_owned()),
        Ok("/c/y".to_owned()),
    ]);
    assert_eq!(
        parser.next_step(),
        ParseStep::Open {
            path: "/c/y".to_owned()
        }
    );
    assert!(parser.open_file(Some("/c/y".to_owned())));
    parser.file_read(Err("Permission denied (os error 13)".to_owned()));
    loop {
        match parser.next_step() {
            ParseStep::Done => break,
            ParseStep::Proceed => {}
            other => panic!("unexpected step {other:?}"),
        }
    }
    let parsed = parser.finish();
    assert!(parsed.hosts.is_empty());
    assert_eq!(
        parsed.warnings,
        vec![
            "invalid Include pattern /c/x: bad pattern",
            "Include glob error: permission denied",
            "/c/y: Permission denied (os error 13)",
        ]
    );
}

#[test]
fn a_file_already_read_is_not_read_again() {
    let mut parser = ConfigParser::new("/c/config", "/h");
    parser.next_step();
    assert!(parser.open_file(Some("/real/config".to_owned())));
    parser.file_read(Ok("Include again\n".to_owned()));
    parser.next_step();
    parser.next_step();
    parser.expansion_listed(vec![Ok("/c/again".to_owned())]);
    assert_eq!(
        parser.next_step(),
        ParseStep::Open {
            path: "/c/again".to_owned()
        }
    );
    assert!(!parser.open_file(Some("/real/config".to_owned())));
    assert_eq!(parser.next_step(), ParseStep::Proceed);
}

#[test]
fn events_out_of_turn_change_nothing() {
    let mut parser = ConfigParser::new("/c/config", "/h");
    assert!(!parser.open_file(None));
    parser.file_read(Ok("Host x\n".to_owned()));
    parser.expansion_failed("e");
    parser.expansion_listed(vec![Ok("/c/z".to_owned())]);
    assert_eq!(
        parser.next_step(),
        ParseStep::Open {
            path: "/c/config".to_owned()
        }
    );
    assert_eq!(parser.next_step(), ParseStep::Proceed);
    let parsed = parser.finish();
    assert!(parsed.hosts.is_empty());
    assert!(parsed.warnings.is_empty());
}

#[test]
fn relative_config_includes_from_its_directory() {
    let mut parser = ConfigParser::new("config", "/h");
    parser.next_step();
    parser.open_file(None);
    parser.file_read(Ok("Include extra\n".to_owned()));
    parser.next_step();
    assert_eq!(
        parser.next_step(),
        ParseStep::Expand {
            pattern: "extra".to_owned()
        }
    );
}

#[test]
fn normalize_path_is_lexical() {
    assert_eq!(normalize_path("/a/./b/../c//d/"), "/a/c/d");
    assert_eq!(normalize_path("a/.."), "");
    assert_eq!(normalize_path("../x"), "x");
    assert_eq!(normalize_path("/.."), "/");
    assert_eq!(normalize_path("./a/b"), "a/b");
    assert_eq!(normalize_path(""), "");
    assert_eq!(normalize_path("/"), "/");
}

#[test]
fn include_patterns_expand_like_paths() {
    assert_eq!(expand_include("/h", "/c", "~"), "/h");
    assert_eq!(expand_include("/h", "/c", "~/x/*.conf"), "/h/x/*.conf");
    assert_eq!(expand_include("/h", "/c", "~//abs"), "/abs");
    assert_eq!(expand_include("/h", "/c", "/etc/ssh/x"), "/etc/ssh/x");
    assert_eq!(expand_include("/h", "/c", "rel/x"), "/c/rel/x");
    assert_eq!(expand_include("/h", "/c/", "rel"), "/c/rel");
    assert_eq!(expand_include("/h", "", "rel"), "rel");
    assert_eq!(expand_include("/h", "/c", "~user"), "/c/~user");
    assert_eq!(join_path("a", ""), "a/");
}

#[test]
fn paths_sort_by_components() {
    assert!(path_less("/a/b", "/a-b"));
    assert!(!path_less("/a-b", "/a/b"));
    assert!(path_less("/a", "/a/b"));
    assert!(!path_less("/a//b", "/a/b"));
    assert!(!path_less("/a/b", "/a//b"));
    assert!(path_less("/x", "y"));
    assert_eq!(
        sort_paths(vec![
            "/c/b".to_owned(),
            "/c/a-b".to_owned(),
            "/c/a/b".to_owned(),
            "/c/a//b".to_owned(),
        ]),
        vec!["/c/a/b", "/c/a//b", "/c/a-b", "/c/b"]
    );
}

#[test]
fn plain_lines_tokenize_as_their_words() {
    for line in ["Host a b", "  HostName\texample.com  ", "", "Include ~/x/*.conf  y"] {
        assert_eq!(tokenize(line), Ok(split_words(line)));
    }
    assert_eq!(tokenize("Host \"a b\" c"), Ok(vec!["Host".to_owned(), "a b".to_owned(), "c".to_owned()]));
}
