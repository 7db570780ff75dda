use refglob::listing::{parse_ref_lines, read_listing, CollaboratorError, ListOutcome};

fn refs(names: &[&str]) -> Vec<String> {
    names.iter().map(|name| name.to_string()).collect()
}

fn answer(output: &[u8]) -> ListOutcome {
    ListOutcome {
        success: true,
        status: "exit status: 0".to_string(),
        output: output.to_vec(),
    }
}

fn malformed(line: &str) -> CollaboratorError {
    CollaboratorError::MalformedLine {
        line: line.to_string(),
    }
}

#[test]
fn line_gives_what_follows_the_remote() {
    assert_eq!(
        parse_ref_lines("origin:fedora/36/x86_64/silverblue"),
        Ok(refs(&["fedora/36/x86_64/silverblue"]))
    );
}

#[test]
fn line_without_colon_fails_the_listing() {
    assert_eq!(
        parse_ref_lines("malformed-no-colon"),
        Err(malformed("malformed-no-colon"))
    );
}

#[test]
fn malformed_line_is_not_skipped() {
    let text = "o:a/1\nmalformed-no-colon\no:a/2\n";
    assert_eq!(parse_ref_lines(text), Err(malformed("malformed-no-colon")));
    let text = "o:a/1\no:a/2\nlast";
    assert_eq!(parse_ref_lines(text), Err(malformed("last")));
}

#[test]
fn first_malformed_line_is_reported() {
    let text = "o:a\nfirst bad\no:b\nsecond bad\n";
    assert_eq!(parse_ref_lines(text), Err(malformed("first bad")));
}

#[test]
fn empty_line_is_malformed() {
    assert_eq!(parse_ref_lines("o:a\n\no:b\n"), Err(malformed("")));
    assert_eq!(parse_ref_lines("\n"), Err(malformed("")));
}

#[test]
fn empty_listing_names_no_refs() {
    assert_eq!(parse_ref_lines(""), Ok(Vec::new()));
    assert_eq!(read_listing(&answer(b"")), Ok(Vec::new()));
}

#[test]
fn refs_come_in_the_order_of_the_lines() {
    let text = "fedora:fedora/36/x86_64/silverblue\nfedora:fedora/36/aarch64/silverblue\nfedora:fedora/36/x86_64/silverblue\n";
    assert_eq!(
        parse_ref_lines(text),
        Ok(refs(&[
            "fedora/36/x86_64/silverblue",
            "fedora/36/aarch64/silverblue",
            "fedora/36/x86_64/silverblue",
        ]))
    );
}

#[test]
fn only_the_first_colon_splits() {
    assert_eq!(parse_ref_lines("o:a:b:c"), Ok(refs(&["a:b:c"])));
    assert_eq!(parse_ref_lines("o::"), Ok(refs(&[":"])));
    assert_eq!(parse_ref_lines(":name"), Ok(refs(&["name"])));
}

#[test]
fn ref_name_may_be_empty() {
    assert_eq!(parse_ref_lines("origin:"), Ok(refs(&[""])));
    assert_eq!(parse_ref_lines("origin:\n:\n"), Ok(refs(&["", ""])));
}

#[test]
fn last_line_needs_no_line_feed() {
    assert_eq!(parse_ref_lines("o:a\no:b"), Ok(refs(&["a", "b"])));
    assert_eq!(parse_ref_lines("o:a\no:b\n"), Ok(refs(&["a", "b"])));
}

#[test]
fn carriage_return_before_line_feed_ends_the_line() {
    assert_eq!(parse_ref_lines("o:a\r\no:b\r\n"), Ok(refs(&["a", "b"])));
    assert_eq!(parse_ref_lines("o:a\r\r\n"), Ok(refs(&["a\r"])));
    assert_eq!(parse_ref_lines("o:a\rb\n"), Ok(refs(&["a\rb"])));
    assert_eq!(parse_ref_lines("o:a\r"), Ok(refs(&["a\r"])));
    assert_eq!(parse_ref_lines("\r\n"), Err(malformed("")));
    assert_eq!(parse_ref_lines("o\r\n"), Err(malformed("o")));
}

#[test]
fn lines_agree_with_the_standard_lines() {
    let texts = [
        "",
        "a:1",
        "a:1\n",
        "a:1\r\n",
        "a:1\r",
        "a:1\n\r",
        "a:1\r\n\r\nb:2",
        "a:1\nb:2\n\n",
        ":\r\r\n:\n",
        "a:\u{e9}\r\n\u{4e2d}:\u{1f980}\n",
        "\n\n",
        "x:y\n:\r\n::\n",
    ];
    for text in texts {
        let mut expected: Result<Vec<String>, CollaboratorError> = Ok(Vec::new());
        for line in text.lines() {
            match line.split_once(':') {
                Some((_, name)) => {
                    if let Ok(names) = expected.as_mut() {
                        names.push(name.to_string());
                    }
                }
                None => {
                    if expected.is_ok() {
                        expected = Err(malformed(line));
                    }
                }
            }
        }
        assert_eq!(parse_ref_lines(text), expected);
    }
}

#[test]
fn text_beyond_ascii_is_cut_between_characters() {
    let text = "caf\u{e9}:\u{4e2d}\u{6587}/\u{1f980}\n\u{e9}:\u{e9}\r\n";
    assert_eq!(
        parse_ref_lines(text),
        Ok(refs(&["\u{4e2d}\u{6587}/\u{1f980}", "\u{e9}"]))
    );
    assert_eq!(
        parse_ref_lines("o:a\n\u{e9}\u{4e2d}\u{1f980}\n"),
        Err(malformed("\u{e9}\u{4e2d}\u{1f980}"))
    );
}

#[test]
fn answer_without_success_is_an_error() {
    let outcome = ListOutcome {
        success: false,
        status: "exit status: 1".to_string(),
        output: b"origin:a/b\n".to_vec(),
    };
    assert_eq!(
        read_listing(&outcome),
        Err(CollaboratorError::QueryFailed {
            status: "exit status: 1".to_string()
        })
    );
}

#[test]
fn status_comes_before_the_output() {
    let outcome = ListOutcome {
        success: false,
        status: "signal: 9".to_string(),
        output: vec![0xff, 0xfe],
    };
    assert_eq!(
        read_listing(&outcome),
        Err(CollaboratorError::QueryFailed {
            status: "signal: 9".to_string()
        })
    );
}

#[test]
fn output_that_is_not_text_is_an_error() {
    assert_eq!(
        read_listing(&answer(&[b'o', b':', 0xff, b'\n'])),
        Err(CollaboratorError::NotText)
    );
    assert_eq!(
        read_listing(&answer(&[0xc3])),
        Err(CollaboratorError::NotText)
    );
    assert_eq!(
        read_listing(&answer(&[0xed, 0xa0, 0x80])),
        Err(CollaboratorError::NotText)
    );
    assert_eq!(
        read_listing(&answer(&[0xc0, 0xaf])),
        Err(CollaboratorError::NotText)
    );
}

#[test]
fn answer_of_text_is_parsed() {
    assert_eq!(
        read_listing(&answer(b"origin:fedora/36/x86_64/silverblue\norigin:fedora/36/aarch64/silverblue\n")),
        Ok(refs(&[
            "fedora/36/x86_64/silverblue",
            "fedora/36/aarch64/silverblue"
        ]))
    );
    assert_eq!(
        read_listing(&answer("o:caf\u{e9}\n".as_bytes())),
        Ok(refs(&["caf\u{e9}"]))
    );
    assert_eq!(
        read_listing(&answer(b"origin:a\nmalformed-no-colon\n")),
        Err(malformed("malformed-no-colon"))
    );
}

#[test]
fn errors_say_what_they_are_about() {
    assert_eq!(
        malformed("malformed-no-colon").message(),
        "Invalid remote line: malformed-no-colon"
    );
    assert_eq!(
        CollaboratorError::QueryFailed {
            status: "exit status: 1".to_string()
        }
        .message(),
        "failed to list the refs of the remote: exit status: 1"
    );
    assert_eq!(
        CollaboratorError::NotText.message(),
        "the listing of refs is not valid UTF-8"
    );
}
