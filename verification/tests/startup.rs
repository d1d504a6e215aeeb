use agent_communication_hub::audit::{AuditError, AuditLog, AuthFailureReason};
use agent_communication_hub::config::{self, ConfigError, TomlValue};
use agent_communication_hub::roster::{self, describe_blank_entry, Place, Roster, RosterError};
use agent_communication_hub::service_log::{self, ServiceLogError};

fn text(pairs: &[(&str, &str)]) -> Result<String, String> {
    let mut text = "[agents]\n".to_string();
    for (name, token) in pairs {
        text.push_str(&format!("{name:?} = {token:?}\n"));
    }
    Ok(text)
}

fn loaded(pairs: &[(&str, &str)]) -> Roster {
    match roster::load("roster.toml", text(pairs), None) {
        Ok(roster) => roster,
        Err(error) => panic!("{error:?}"),
    }
}

fn refused(file: Result<String, String>) -> RosterError {
    match roster::load("roster.toml", file, None) {
        Ok(_) => panic!("loaded"),
        Err(error) => error,
    }
}

fn config_text() -> Vec<&'static str> {
    vec![
        "port = 46110",
        "audit_log_path = \"audit.jsonl\"",
        "service_log_path = \"service.log\"",
        "roster_path = \"roster.toml\"",
    ]
}

fn config_error(text: &str) -> ConfigError {
    config::load("c.toml", Ok(text.to_string()), "the complaint".to_string()).unwrap_err()
}

#[test]
fn a_roster_authenticates_its_agents() {
    let roster = loaded(&[("mneme", "t1"), ("datastore", "t2")]);
    assert_eq!(roster.authenticate("mneme", &"t1".to_string()), None);
    assert_eq!(roster.authenticate("datastore", &"t2".to_string()), None);
}

#[test]
fn an_unknown_name_is_told_apart_from_a_wrong_token() {
    let roster = loaded(&[("mneme", "t1"), ("datastore", "t2")]);
    assert_eq!(
        roster.authenticate("nobody", &"t1".to_string()),
        Some(AuthFailureReason::UnknownName)
    );
    assert_eq!(
        roster.authenticate("mneme", &"t2".to_string()),
        Some(AuthFailureReason::TokenMismatch)
    );
    assert_eq!(
        roster.authenticate("mneme", &String::new()),
        Some(AuthFailureReason::TokenMismatch)
    );
    assert_eq!(AuthFailureReason::UnknownName.to_string(), "unknown agent name");
    assert_eq!(AuthFailureReason::TokenMismatch.to_string(), "token mismatch");
}

#[test]
fn tokens_are_compared_exactly() {
    let roster = loaded(&[("mneme", "t1")]);
    assert!(roster.authenticate("mneme", &"t1\n".to_string()).is_some());
    assert!(roster.authenticate("Mneme", &"t1".to_string()).is_some());
}

#[test]
fn a_roster_without_agents_is_refused() {
    let error = refused(text(&[]));
    assert!(matches!(error, RosterError::Empty { .. }));
    assert_eq!(
        error.to_string(),
        "roster file roster.toml has an empty [agents] table; at least one agent is required"
    );
}

#[test]
fn a_blank_name_or_token_is_refused() {
    let error = refused(text(&[("mneme", "t1"), ("data\"store", ""), ("zeno", "")]));
    assert!(matches!(error, RosterError::BlankEntry { .. }));
    assert_eq!(
        error.to_string(),
        "roster file roster.toml has an entry with an empty name or empty token \
         (name: \"data\\\"store\")"
    );
    let error = refused(text(&[("", "t3")]));
    assert_eq!(
        error.to_string(),
        "roster file roster.toml has an entry with an empty name or empty token (name: \"\")"
    );
}

#[test]
fn the_blank_entry_line_is_spelled_out() {
    assert_eq!(
        describe_blank_entry("r", "\"n\""),
        "roster file r has an entry with an empty name or empty token (name: \"n\")"
    );
}

#[test]
fn a_roster_that_cannot_be_read_is_refused() {
    let error = refused(Err("no such file".to_string()));
    assert!(matches!(error, RosterError::Read { .. }));
    assert_eq!(error.to_string(), "cannot read roster file roster.toml: no such file");
}

#[test]
fn a_file_that_is_no_roster_is_refused_by_place() {
    let files = [
        "[agents]\nmneme = \"s3cret-1\" extra\n",
        "[agents]\nmneme = s3cret-1\n",
        "mneme = \"s3cret-1\"\n",
        "[agents]\nmneme = [\"s3cret-1\"]\n",
        "[agents]\nmneme = \"s3cret-1\"\n[more]\n",
        "[agent]\nmneme = \"s3cret-1\"\n",
        "",
    ];
    for file in files {
        for (at, place) in [(Some(0), " (line 1, column 1)"), (None, "")] {
            let error = match roster::load("r", Ok(file.to_string()), at) {
                Ok(_) => panic!("loaded"),
                Err(error) => error,
            };
            assert!(matches!(error, RosterError::Parse { .. }));
            assert_eq!(
                error.to_string(),
                format!(
                    "invalid roster file r: expected an [agents] table of tokens and nothing \
                     else{place}"
                )
            );
            assert!(!format!("{error:?}").contains("s3cret-1"));
        }
    }
}

#[test]
fn a_roster_may_be_written_in_any_toml_way() {
    for text in ["agents.mneme = \"t1\"", "agents = { mneme = \"t1\" }", "[agents]\n\"mneme\" = 't1'"] {
        let roster = match roster::load("r", Ok(text.to_string()), None) {
            Ok(roster) => roster,
            Err(error) => panic!("{error:?}"),
        };
        assert_eq!(roster.authenticate("mneme", &"t1".to_string()), None);
    }
}

#[test]
fn the_place_of_a_fault_follows_the_parsers_offset() {
    match roster::load_parsed("r", "[agents]\nab = !\n", None, Some(11)) {
        Err(error) => {
            let place = Some(Place { line: 2, column: 3 });
            assert_eq!(
                error.to_string(),
                "invalid roster file r: expected an [agents] table of tokens and nothing else \
                 (line 2, column 3)"
            );
            match error {
                RosterError::Parse { place: found, .. } => assert_eq!(found, place),
                other => panic!("{other:?}"),
            }
        }
        Ok(_) => panic!("loaded"),
    }
    let tables = Some(vec![("more".to_string(), vec![])]);
    match roster::load_parsed("r", "", tables, None) {
        Err(RosterError::Parse { place: None, .. }) => {}
        _ => panic!("not refused"),
    }
}

#[test]
fn a_roster_lists_its_names() {
    let roster = loaded(&[("mneme", "t1"), ("datastore", "t2")]);
    let mut names = roster.agents.names();
    names.sort_unstable();
    assert_eq!(names, vec!["datastore".to_string(), "mneme".to_string()]);
}

#[test]
fn the_configuration_is_what_the_file_holds() {
    let text = config_text().join("\n");
    let config = config::load("config.toml", Ok(text), "unused".to_string()).unwrap();
    assert_eq!(config.port, 46110);
    assert_eq!(config.audit_log_path, "audit.jsonl");
    assert_eq!(config.service_log_path, "service.log");
    assert_eq!(config.roster_path, "roster.toml");
}

#[test]
fn every_key_of_the_configuration_is_required() {
    for index in 0..4 {
        let mut lines = config_text();
        lines.remove(index);
        let error = config_error(&lines.join("\n"));
        assert!(matches!(error, ConfigError::Parse { .. }));
        assert_eq!(error.to_string(), "invalid config file c.toml: the complaint");
    }
}

#[test]
fn no_other_key_is_allowed() {
    for extra in ["host = \"0.0.0.0\"", "[more]"] {
        let mut lines = config_text();
        lines.push(extra);
        let error = config_error(&lines.join("\n"));
        assert_eq!(error.to_string(), "invalid config file c.toml: the complaint");
    }
}

#[test]
fn values_of_the_configuration_have_their_types() {
    for port in ["\"46110\"", "-1", "65536", "1.5", "true", "1979-05-27", "[1]"] {
        let mut lines = config_text();
        let line = format!("port = {port}");
        lines[0] = &line;
        assert!(matches!(config_error(&lines.join("\n")), ConfigError::Parse { .. }));
    }
    let mut lines = config_text();
    lines[3] = "roster_path = [\"roster.toml\"]";
    assert!(matches!(config_error(&lines.join("\n")), ConfigError::Parse { .. }));
    for port in ["0", "65535"] {
        let mut lines = config_text();
        let line = format!("port = {port}");
        lines[0] = &line;
        let config = config::load("c.toml", Ok(lines.join("\n")), String::new()).unwrap();
        assert_eq!(config.port.to_string(), port);
    }
}

#[test]
fn a_configuration_that_cannot_be_read_or_parsed_is_refused() {
    let error = config::load("c.toml", Err("denied".to_string()), String::new()).unwrap_err();
    assert!(matches!(error, ConfigError::Read { .. }));
    assert_eq!(error.to_string(), "cannot read config file c.toml: denied");
    let error = config_error("port =");
    assert!(matches!(error, ConfigError::Parse { .. }));
    assert_eq!(error.to_string(), "invalid config file c.toml: the complaint");
    let error = config::load_parsed("c.toml", None, "because".to_string()).unwrap_err();
    assert_eq!(error.to_string(), "invalid config file c.toml: because");
}

#[test]
fn parsed_entries_decide_on_the_configuration() {
    let text = |text: &str| TomlValue::Text(text.to_string());
    let entries = |port| {
        vec![
            ("roster_path".to_string(), text("r")),
            ("port".to_string(), port),
            ("audit_log_path".to_string(), text("a")),
            ("service_log_path".to_string(), text("s")),
        ]
    };
    let good = Some(entries(TomlValue::Integer(7)));
    assert_eq!(config::load_parsed("c", good, String::new()).unwrap().port, 7);
    let bad = Some(entries(TomlValue::Table));
    let error = config::load_parsed("c", bad, "why".to_string()).unwrap_err();
    assert_eq!(error.to_string(), "invalid config file c: why");
}

#[test]
fn the_service_log_goes_where_its_path_says() {
    let target = service_log::init("logs/service.log").ok().unwrap();
    assert_eq!(target.directory, "logs");
    assert_eq!(target.file_name, "service.log");
    let target = service_log::init("/var/log/hub/service.log").ok().unwrap();
    assert_eq!(target.directory, "/var/log/hub");
    assert_eq!(target.file_name, "service.log");
}

#[test]
fn a_bare_file_name_means_the_current_directory() {
    let target = service_log::init("service.log").ok().unwrap();
    assert_eq!(target.directory, ".");
    assert_eq!(target.file_name, "service.log");
    for parent in [None, Some(String::new())] {
        let target = service_log::init_at("s", Some("s".to_string()), parent);
        assert_eq!(target.ok().unwrap().directory, ".");
    }
}

#[test]
fn a_path_that_ends_in_a_separator_names_no_log_file() {
    for path in ["logs/", "/", "", "logs//", "..", "logs/.."] {
        let error = service_log::init(path).err().unwrap();
        assert!(matches!(error, ServiceLogError::InvalidPath { .. }));
        assert_eq!(
            error.to_string(),
            format!("service log path {path} has no file name component")
        );
    }
}

#[test]
fn service_log_failures_name_path_and_cause() {
    let error = service_log::init_at("/", None, None).err().unwrap();
    assert!(matches!(error, ServiceLogError::InvalidPath { .. }));
    assert_eq!(error.to_string(), "service log path / has no file name component");
    let error = ServiceLogError::Appender {
        path: "x/y".to_string(),
        source: "no directory".to_string(),
    };
    assert_eq!(error.to_string(), "cannot open service log x/y: no directory");
    let error = ServiceLogError::Subscriber { source: "already set".to_string() };
    assert_eq!(error.to_string(), "cannot install service logger: already set");
}

#[test]
fn an_audit_line_is_the_event_and_a_newline() {
    let log = AuditLog::open("audit.jsonl", Ok(())).ok().unwrap();
    assert_eq!(log.write(Ok("{}".to_string())).ok().unwrap(), "{}\n");
    assert!(log.appended(Ok(())).is_ok());
}

#[test]
fn audit_failures_name_path_and_cause() {
    let error = AuditLog::open("a", Err("denied".to_string())).err().unwrap();
    assert!(matches!(error, AuditError::Open { .. }));
    assert_eq!(error.to_string(), "cannot open audit log a: denied");
    let log = AuditLog::open("a", Ok(())).ok().unwrap();
    let error = log.write(Err("bad key".to_string())).unwrap_err();
    assert!(matches!(error, AuditError::Serialize { .. }));
    assert_eq!(error.to_string(), "cannot serialize audit event: bad key");
    let error = log.appended(Err("disk full".to_string())).unwrap_err();
    assert!(matches!(error, AuditError::Write { .. }));
    assert_eq!(error.to_string(), "cannot append to audit log a: disk full");
}

#[test]
fn the_audit_log_is_one_line_per_event() {
    let log = AuditLog::open("a", Ok(())).ok().unwrap();
    let mut file = "{\"old\":1}\n".to_string();
    for write in [Ok("{\"a\":1}".to_string()), Err("bad".to_string()), Ok("{\"b\":2}".to_string())] {
        if let Ok(line) = log.write(write) {
            file.push_str(&line);
        }
    }
    let lines: Vec<&str> = file.lines().collect();
    assert_eq!(lines, vec!["{\"old\":1}", "{\"a\":1}", "{\"b\":2}"]);
    assert!(file.ends_with('\n'));
}
