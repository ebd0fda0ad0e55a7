use openbiz::cli::{effect, Argument, ArgsError, Command, USAGE};

fn parse(args: &[&str]) -> Result<Command, ArgsError> {
    Command::parse(args.iter().map(|arg| text(arg)).collect())
}

fn text(arg: &str) -> Argument {
    Argument::Text(arg.to_owned())
}

#[test]
fn no_arguments_means_serve() {
    assert_eq!(parse(&[]), Ok(Command::Serve));
}

#[test]
fn backup_and_restore_take_one_file() {
    assert_eq!(
        parse(&["backup", "/backups/today.nq"]),
        Ok(Command::Backup {
            file: text("/backups/today.nq")
        })
    );
    assert_eq!(
        parse(&["restore", "/backups/today.nq"]),
        Ok(Command::Restore {
            file: text("/backups/today.nq")
        })
    );
}

#[test]
fn help_is_spelled_three_ways() {
    for spelling in ["help", "--help", "-h"] {
        assert_eq!(parse(&[spelling]), Ok(Command::Help), "spelled {spelling}");
    }
}

#[test]
fn a_mistyped_command_is_refused_rather_than_treated_as_serve() {
    let error = parse(&["backupp", "/backups/today.nq"]).expect_err("a typo must be refused");
    assert_eq!(error, ArgsError::UnknownCommand("backupp".to_owned()));
    assert!(error.to_string().contains("backupp"));
}

#[test]
fn a_command_with_no_file_says_which_command_needed_one() {
    for command in ["backup", "restore"] {
        let error = parse(&[command]).expect_err("a missing file must be refused");
        assert!(
            error.to_string().contains(command),
            "the message must name the command: {}",
            error.to_string()
        );
    }
}

#[test]
fn extra_arguments_are_refused_rather_than_ignored() {
    let error =
        parse(&["backup", "/backups/last", "week.nq"]).expect_err("extra arguments must be refused");
    assert_eq!(
        error,
        ArgsError::TooManyArguments {
            command: "backup",
            extra: 1
        }
    );
    assert_eq!(
        parse(&["help", "me"]),
        Err(ArgsError::TooManyArguments {
            command: "help",
            extra: 1
        })
    );
}

#[test]
fn import_takes_the_vocabulary_it_proposes_against_and_then_the_file() {
    assert_eq!(
        parse(&["import", "https://example.org/regions", "concepts.ttl"]),
        Ok(Command::Import {
            graph: "https://example.org/regions".to_owned(),
            file: text("concepts.ttl"),
        })
    );
}

#[test]
fn retract_takes_the_vocabulary_it_proposes_against_and_then_the_file() {
    assert_eq!(
        parse(&["retract", "https://example.org/regions", "wrong.nt"]),
        Ok(Command::Retract {
            graph: "https://example.org/regions".to_owned(),
            file: text("wrong.nt"),
        })
    );
    let error = parse(&["retract", "https://example.org/regions"]).expect_err("a file is required");
    assert!(
        error.to_string().contains("retract"),
        "the message must name the command: {}",
        error.to_string()
    );
    let error = parse(&["retract"]).expect_err("a graph is required");
    assert!(
        error.to_string().contains("retract") && error.to_string().contains("IRI"),
        "the message must say what was missing: {}",
        error.to_string()
    );
}

#[test]
fn the_review_commands_take_a_candidate_and_the_list_takes_nothing() {
    assert_eq!(parse(&["candidates"]), Ok(Command::Candidates));
    assert_eq!(
        parse(&["candidate", "7"]),
        Ok(Command::Show { id: "7".to_owned() })
    );
    assert_eq!(
        parse(&["approve", "7"]),
        Ok(Command::Approve { id: "7".to_owned() })
    );
    assert_eq!(
        parse(&["reject", "7"]),
        Ok(Command::Reject { id: "7".to_owned() })
    );
    assert_eq!(
        parse(&["candidates", "7"]),
        Err(ArgsError::TooManyArguments {
            command: "candidates",
            extra: 1
        })
    );
}

#[test]
fn ancestors_takes_a_vocabulary_and_a_concept() {
    assert_eq!(
        parse(&[
            "ancestors",
            "https://example.org/regions",
            "https://example.org/regions/japan"
        ]),
        Ok(Command::Ancestors {
            graph: "https://example.org/regions".to_owned(),
            concept: "https://example.org/regions/japan".to_owned(),
        })
    );
    let error =
        parse(&["ancestors", "https://example.org/regions"]).expect_err("a concept is required");
    assert!(
        error.to_string().contains("concept"),
        "the message must say what was missing: {}",
        error.to_string()
    );
    assert_eq!(
        parse(&["ancestors", "a", "b", "c"]),
        Err(ArgsError::TooManyArguments {
            command: "ancestors",
            extra: 1
        })
    );
}

#[test]
fn inspect_takes_one_vocabulary_and_refuses_a_second_argument() {
    assert_eq!(
        parse(&["inspect", "https://example.org/regions"]),
        Ok(Command::Inspect {
            graph: "https://example.org/regions".to_owned(),
        })
    );
    assert_eq!(
        parse(&["inspect", "https://example.org/regions", "extra"]),
        Err(ArgsError::TooManyArguments {
            command: "inspect",
            extra: 1
        })
    );
    let error = parse(&["inspect"]).expect_err("a vocabulary is required");
    assert!(
        error.to_string().contains("inspect") && error.to_string().contains("IRI"),
        "the message must say what was missing: {}",
        error.to_string()
    );
}

#[test]
fn a_command_with_no_candidate_says_which_command_needed_one() {
    for command in ["candidate", "approve", "reject"] {
        let error = parse(&[command]).expect_err("a missing identifier must be refused");
        assert!(
            error.to_string().contains(command),
            "the message must name the command: {}",
            error.to_string()
        );
    }
    let error = parse(&["import"]).expect_err("a missing graph must be refused");
    assert!(
        error.to_string().contains("import") && error.to_string().contains("IRI"),
        "the message must say what was missing: {}",
        error.to_string()
    );
    let error =
        parse(&["import", "https://example.org/regions"]).expect_err("a missing file must be refused");
    assert!(
        error.to_string().contains("import"),
        "the message must name the command: {}",
        error.to_string()
    );
}

#[test]
fn the_usage_names_every_command_it_can_parse() {
    for command in [
        "backup",
        "restore",
        "import",
        "retract",
        "candidates",
        "candidate",
        "approve",
        "reject",
        "help",
    ] {
        assert!(
            USAGE.contains(command),
            "usage does not mention {command}, so nobody can discover it"
        );
    }
}

#[test]
fn each_refusal_reads_as_a_sentence() {
    assert_eq!(
        parse(&["backupp"]).unwrap_err().to_string(),
        "\"backupp\" is not an openbiz command"
    );
    assert_eq!(
        parse(&["backup"]).unwrap_err().to_string(),
        "`openbiz backup` needs a file to write"
    );
    assert_eq!(
        parse(&["restore"]).unwrap_err().to_string(),
        "`openbiz restore` needs a file to read"
    );
    assert_eq!(
        parse(&["reject", "7", "8", "9"]).unwrap_err().to_string(),
        "`openbiz reject` takes one file, and 2 more argument(s) were given"
    );
    assert_eq!(
        parse(&["approve"]).unwrap_err().to_string(),
        "`openbiz approve` needs a candidate to approve"
    );
    assert_eq!(
        ArgsError::NotUnicode.to_string(),
        "an argument is not valid Unicode, so it cannot be a command"
    );
}

#[test]
fn an_unknown_command_is_quoted_with_its_escapes() {
    assert_eq!(
        parse(&["say \"hi\""]).unwrap_err().to_string(),
        "\"say \\\"hi\\\"\" is not an openbiz command"
    );
}

#[test]
fn an_argument_that_is_not_text_is_refused() {
    let raw = || Argument::Raw(vec![0x66, 0x6f, 0x80]);
    assert_eq!(Command::parse(vec![raw()]), Err(ArgsError::NotUnicode));
    assert_eq!(
        Command::parse(vec![text("inspect"), raw()]),
        Err(ArgsError::NotUnicode)
    );
    assert_eq!(
        Command::parse(vec![text("ancestors"), raw()]),
        Err(ArgsError::NotUnicode)
    );
    assert_eq!(
        Command::parse(vec![text("import"), raw(), text("concepts.ttl")]),
        Err(ArgsError::NotUnicode)
    );
}

#[test]
fn an_empty_first_argument_is_not_a_command() {
    assert_eq!(parse(&[""]), Err(ArgsError::UnknownCommand(String::new())));
}

#[test]
fn a_change_names_both_halves_and_leaves_out_an_empty_one() {
    assert_eq!(effect(4, 0), "adds 4 statements");
    assert_eq!(effect(1, 0), "adds 1 statement");
    assert_eq!(effect(0, 1), "removes 1 statement");
    assert_eq!(effect(0, 12), "removes 12 statements");
    assert_eq!(effect(3, 1), "adds 3 statements and removes 1 statement");
    assert_eq!(effect(0, 0), "adds 0 statements");
}

#[test]
fn the_actor_is_the_first_name_that_is_set_and_not_blank() {
    let set = |value: &str| Some(value.to_owned());
    assert_eq!(
        openbiz::cli::actor(&vec![None, set("  "), set(" ana ")]),
        Some(" ana ".to_owned())
    );
    assert_eq!(
        openbiz::cli::actor(&vec![set("curator"), set("ana"), None]),
        Some("curator".to_owned())
    );
    assert_eq!(openbiz::cli::actor(&vec![None, set("\t\n"), None]), None);
    assert_eq!(openbiz::cli::actor(&vec![]), None);
}

#[test]
fn a_file_name_that_is_not_unicode_is_still_a_file_name() {
    let raw = vec![0x2f, 0x74, 0x6d, 0x70, 0x2f, 0xff, 0x2e, 0x6e, 0x71];
    assert_eq!(
        Command::parse(vec![text("backup"), Argument::Raw(raw.clone())]),
        Ok(Command::Backup { file: Argument::Raw(raw.clone()) })
    );
    assert_eq!(
        Command::parse(vec![text("retract"), text("https://example.org/regions"), Argument::Raw(raw.clone())]),
        Ok(Command::Retract {
            graph: "https://example.org/regions".to_owned(),
            file: Argument::Raw(raw),
        })
    );
}

#[test]
fn a_proposal_says_what_it_staged_and_how_to_decide_it() {
    assert_eq!(
        openbiz::cli::proposed("7", "https://example.org/regions", 4, 0, "concepts.ttl", "Turtle"),
        "proposed candidate 7 against https://example.org/regions: adds 4 statements from \
         concepts.ttl, read as Turtle\nnothing has been written to the vocabulary. Review it with \
         `openbiz candidate 7`, then `openbiz approve 7` or `openbiz reject 7`."
    );
    assert_eq!(
        openbiz::cli::proposal_agent("ada", openbiz::cli::CandidatePart::Removals),
        "ada (openbiz retract)"
    );
    assert_eq!(
        openbiz::cli::proposal_note(openbiz::cli::CandidatePart::Additions, "concepts.ttl", "Turtle"),
        "imported from concepts.ttl as Turtle"
    );
    assert_eq!(
        openbiz::cli::proposal_note(openbiz::cli::CandidatePart::Removals, "wrong.nt", "N-Triples"),
        "retraction read from wrong.nt as N-Triples"
    );
}
