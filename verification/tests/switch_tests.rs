use aws_switch::cli::{Cli, Command, LogLevel, level_filters};
use aws_switch::creds::{
    Credential, access_key_bytes, extract_credentials, lookup_credential, restore_credentials,
    secret_key_bytes, switch,
};
use aws_switch::ini::{Entry, IniFile, Section};
use aws_switch::parse::parse_ini;
use aws_switch::write::write_ini;
use aws_switch::{SwitchError, check_directories, exit_code};

fn b(s: &str) -> Vec<u8> {
    s.as_bytes().to_vec()
}

fn entry(k: &str, v: &str) -> Entry {
    Entry { key: b(k), value: b(v) }
}

fn profile(name: &str, access: &str, secret: &str) -> Section {
    Section {
        name: b(name),
        entries: vec![
            entry("aws_access_key_id", access),
            entry("aws_secret_access_key", secret),
        ],
    }
}

fn get<'a>(f: &'a IniFile, name: &str, key: &str) -> Option<&'a Vec<u8>> {
    let kb = b(key);
    for s in &f.sections {
        if s.name == b(name) {
            return s.get(&kb);
        }
    }
    None
}

#[test]
fn key_name_builders_match_the_field_names() {
    assert_eq!(access_key_bytes(), b("aws_access_key_id"));
    assert_eq!(secret_key_bytes(), b("aws_secret_access_key"));
}

#[test]
fn parses_sections_and_pairs() {
    let f = parse_ini(&b("[default]\naws_access_key_id = AKIA1\naws_secret_access_key = S1\n"))
        .unwrap();
    assert_eq!(f.sections.len(), 1);
    assert_eq!(f.sections[0].name, b("default"));
    assert_eq!(f.sections[0].entries.len(), 2);
    assert_eq!(f.sections[0].entries[0].key, b("aws_access_key_id"));
    assert_eq!(f.sections[0].entries[0].value, b("AKIA1"));
    assert_eq!(f.sections[0].entries[1].value, b("S1"));
}

#[test]
fn parses_comments_blanks_crlf_and_unnamed_section() {
    let f = parse_ini(&b("; comment\r\nlead = 1\r\n\r\n# note\r\n[p]\r\nk = v\r\n")).unwrap();
    assert_eq!(f.sections.len(), 2);
    assert_eq!(f.sections[0].name, b(""));
    assert_eq!(f.sections[0].entries[0].key, b("lead"));
    assert_eq!(f.sections[0].entries[0].value, b("1"));
    assert_eq!(f.sections[1].name, b("p"));
    assert_eq!(f.sections[1].entries[0].value, b("v"));
}

#[test]
fn parses_empty_input_to_no_sections() {
    let f = parse_ini(&b("")).unwrap();
    assert_eq!(f.sections.len(), 0);
}

#[test]
fn keeps_a_named_section_without_entries() {
    let f = parse_ini(&b("[empty]\n")).unwrap();
    assert_eq!(f.sections.len(), 1);
    assert_eq!(f.sections[0].name, b("empty"));
    assert_eq!(f.sections[0].entries.len(), 0);
}

#[test]
fn rejects_a_line_without_equals() {
    assert!(matches!(parse_ini(&b("[p]\nno separator\n")), Err(SwitchError::ParseError)));
}

#[test]
fn rejects_an_unclosed_header() {
    assert!(matches!(parse_ini(&b("[p\nk = v\n")), Err(SwitchError::ParseError)));
}

#[test]
fn rejects_an_empty_header_and_an_empty_key() {
    assert!(matches!(parse_ini(&b("[ ]\n")), Err(SwitchError::ParseError)));
    assert!(matches!(parse_ini(&b("= v\n")), Err(SwitchError::ParseError)));
}

#[test]
fn extraction_returns_one_record_per_complete_section() {
    let f = parse_ini(&b(
        "[a]\naws_access_key_id = A1\naws_secret_access_key = S1\n\
         [half]\naws_access_key_id = A2\n\
         [c]\naws_secret_access_key = S3\naws_access_key_id = A3\nextra = x\n",
    ))
    .unwrap();
    let creds = extract_credentials(&f);
    assert_eq!(creds.len(), 2);
    assert_eq!(creds[0].profile_name, b("a"));
    assert_eq!(creds[0].access_key, b("A1"));
    assert_eq!(creds[0].secret_key, b("S1"));
    assert_eq!(creds[1].profile_name, b("c"));
    assert_eq!(creds[1].access_key, b("A3"));
    assert_eq!(creds[1].secret_key, b("S3"));
}

#[test]
fn lookup_takes_the_last_credential_under_a_repeated_name() {
    let creds = vec![
        Credential { profile_name: b("p"), access_key: b("OLD"), secret_key: b("OS") },
        Credential { profile_name: b("q"), access_key: b("Q"), secret_key: b("QS") },
        Credential { profile_name: b("p"), access_key: b("NEW"), secret_key: b("NS") },
    ];
    let hit = lookup_credential(&creds, &b("p")).unwrap();
    assert_eq!(hit.access_key, b("NEW"));
    assert!(lookup_credential(&creds, &b("missing")).is_none());
}

#[test]
fn restore_overwrites_matching_sections_and_keeps_the_rest() {
    let f = IniFile {
        sections: vec![
            profile("a", "B_A", "B_S"),
            Section { name: b("other"), entries: vec![entry("k", "v")] },
            profile("only_b", "KEEP_A", "KEEP_S"),
        ],
    };
    let creds = vec![Credential { profile_name: b("a"), access_key: b("A_A"), secret_key: b("A_S") }];
    let r = restore_credentials(&f, &creds);
    assert_eq!(get(&r, "a", "aws_access_key_id").unwrap(), &b("A_A"));
    assert_eq!(get(&r, "a", "aws_secret_access_key").unwrap(), &b("A_S"));
    // a section without an access-key field is untouched
    assert_eq!(get(&r, "other", "k").unwrap(), &b("v"));
    assert!(get(&r, "other", "aws_access_key_id").is_none());
    // a section whose name was not captured keeps its own values
    assert_eq!(get(&r, "only_b", "aws_access_key_id").unwrap(), &b("KEEP_A"));
    assert_eq!(get(&r, "only_b", "aws_secret_access_key").unwrap(), &b("KEEP_S"));
}

#[test]
fn restore_with_no_credentials_changes_nothing() {
    let f = IniFile { sections: vec![profile("p", "A", "S")] };
    let r = restore_credentials(&f, &Vec::new());
    assert_eq!(write_ini(&r), write_ini(&f));
}

#[test]
fn restore_adds_a_missing_secret_beside_an_access_key() {
    let f = IniFile {
        sections: vec![Section { name: b("p"), entries: vec![entry("aws_access_key_id", "B")] }],
    };
    let creds = vec![Credential { profile_name: b("p"), access_key: b("A"), secret_key: b("S") }];
    let r = restore_credentials(&f, &creds);
    assert_eq!(get(&r, "p", "aws_access_key_id").unwrap(), &b("A"));
    assert_eq!(get(&r, "p", "aws_secret_access_key").unwrap(), &b("S"));
}

#[test]
fn switch_preserves_the_active_key_pair() {
    // the scenario of switching ~/.aws to the ~/.aws.v2 layout: the key
    // pair of the default profile survives, everything else follows the
    // replacement
    let a = parse_ini(&b("[default]\naws_access_key_id = AKIA1\naws_secret_access_key = SEC1\n"))
        .unwrap();
    let v2 = parse_ini(&b(
        "[default]\naws_access_key_id = AKIA2\naws_secret_access_key = SEC2\nregion = eu\n",
    ))
    .unwrap();
    let r = switch(&a, &v2);
    assert_eq!(get(&r, "default", "aws_access_key_id").unwrap(), &b("AKIA1"));
    assert_eq!(get(&r, "default", "aws_secret_access_key").unwrap(), &b("SEC1"));
    // a field only the replacement has is kept verbatim
    assert_eq!(get(&r, "default", "region").unwrap(), &b("eu"));
}

#[test]
fn scenario_only_access_key_is_skipped_and_untouched() {
    // a section with an access key but no secret yields no credential and
    // keeps its own value through a switch
    let a = parse_ini(&b("[half]\naws_access_key_id = FROM_A\n")).unwrap();
    assert_eq!(extract_credentials(&a).len(), 0);
    let bf = parse_ini(&b("[half]\naws_access_key_id = FROM_B\n")).unwrap();
    let r = switch(&a, &bf);
    assert_eq!(get(&r, "half", "aws_access_key_id").unwrap(), &b("FROM_B"));
}

#[test]
fn switching_away_and_back_restores_the_key_pair() {
    let a = parse_ini(&b(
        "[default]\naws_access_key_id = AKIA1\naws_secret_access_key = SEC1\n\
         [work]\naws_access_key_id = W1\naws_secret_access_key = WS1\n",
    ))
    .unwrap();
    let bf = parse_ini(&b(
        "[default]\naws_access_key_id = AKIA2\naws_secret_access_key = SEC2\n",
    ))
    .unwrap();
    let mid = switch(&a, &bf);
    let fin = switch(&mid, &a);
    assert_eq!(get(&fin, "default", "aws_access_key_id").unwrap(), &b("AKIA1"));
    assert_eq!(get(&fin, "default", "aws_secret_access_key").unwrap(), &b("SEC1"));
    // a profile the intermediate file lacked falls back to a's own values
    assert_eq!(get(&fin, "work", "aws_access_key_id").unwrap(), &b("W1"));
    assert_eq!(get(&fin, "work", "aws_secret_access_key").unwrap(), &b("WS1"));
}

#[test]
fn writes_the_exact_bytes() {
    let f = IniFile {
        sections: vec![
            Section { name: b(""), entries: vec![entry("lead", "1")] },
            Section { name: b("p"), entries: vec![entry("k", "v"), entry("k2", "w")] },
        ],
    };
    assert_eq!(write_ini(&f), b("lead=1\n[p]\nk=v\nk2=w\n"));
}

#[test]
fn writing_then_parsing_gives_the_sections_back() {
    let src = "[default]\naws_access_key_id = A\naws_secret_access_key = S\n[p]\nk = v\n";
    let f = parse_ini(&b(src)).unwrap();
    let again = parse_ini(&write_ini(&f)).unwrap();
    assert_eq!(write_ini(&again), write_ini(&f));
    assert_eq!(again.sections.len(), 2);
    assert_eq!(get(&again, "default", "aws_access_key_id").unwrap(), &b("A"));
}

#[test]
fn missing_directories_are_a_configuration_error() {
    assert_eq!(check_directories(true, true), Ok(()));
    assert_eq!(
        check_directories(true, false),
        Err(SwitchError::ConfigurationMissing)
    );
    assert_eq!(
        check_directories(false, true),
        Err(SwitchError::ConfigurationMissing)
    );
}

#[test]
fn exit_codes_are_distinct_and_non_zero() {
    assert_eq!(exit_code(&SwitchError::ConfigurationMissing), 2);
    assert_eq!(exit_code(&SwitchError::ParseError), 1);
    assert_eq!(exit_code(&SwitchError::IoError), 1);
    assert_eq!(exit_code(&SwitchError::UnrecognizedCommand), 1);
}

#[test]
fn level_filters_lists_the_six_names() {
    assert_eq!(
        level_filters(),
        ["OFF", "ERROR", "WARN", "INFO", "DEBUG", "TRACE"]
    );
    assert_eq!(LogLevel::Warn.as_str(), "WARN");
    assert_eq!(LogLevel::default(), LogLevel::Debug);
}

#[test]
fn subcommands_name_their_directory_suffix() {
    assert_eq!(Command::UseV1.suffix(), ".v1");
    assert_eq!(Command::UseV2.suffix(), ".v2");
    assert_eq!(Command::UseV3.suffix(), ".v3");
    let cli = Cli { log_level: LogLevel::Info, command: Command::UseV2 };
    assert_eq!(format!(".aws{}", cli.command.suffix()), ".aws.v2");
}

#[test]
fn extraction_keeps_one_credential_per_repeated_name() {
    // a profile name uniquely identifies a credential: the later section
    // under a repeated name supersedes the earlier capture
    let f = parse_ini(&b(
        "[p]\naws_access_key_id = A1\naws_secret_access_key = S1\n\
         [q]\naws_access_key_id = Q\naws_secret_access_key = QS\n\
         [p]\naws_access_key_id = A2\naws_secret_access_key = S2\n",
    ))
    .unwrap();
    let creds = extract_credentials(&f);
    assert_eq!(creds.len(), 2);
    assert_eq!(creds[0].profile_name, b("q"));
    assert_eq!(creds[1].profile_name, b("p"));
    assert_eq!(creds[1].access_key, b("A2"));
    assert_eq!(creds[1].secret_key, b("S2"));
}

#[test]
fn switch_under_a_repeated_name_applies_the_last_capture() {
    let a = parse_ini(&b(
        "[p]\naws_access_key_id = OLD\naws_secret_access_key = OS\n\
         [p]\naws_access_key_id = NEW\naws_secret_access_key = NS\n",
    ))
    .unwrap();
    let bf = parse_ini(&b("[p]\naws_access_key_id = B\naws_secret_access_key = BS\n")).unwrap();
    let r = switch(&a, &bf);
    assert_eq!(get(&r, "p", "aws_access_key_id").unwrap(), &b("NEW"));
    assert_eq!(get(&r, "p", "aws_secret_access_key").unwrap(), &b("NS"));
}
