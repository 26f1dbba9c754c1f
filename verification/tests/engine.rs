use snipster::commands::commands::SnipsterCommand;
use snipster::commands::fzf_builder::FzfBuilder;
use snipster::error::SnipsterError;
use snipster::storage::file::Snippet;
use snipster::storage::placeholder::PlaceHolder;

fn snippet(content: &str) -> Snippet {
    SnipsterCommand::add_snip("test", content, "a note").expect("add_snip must succeed")
}

fn values(vs: &[&str]) -> Vec<String> {
    vs.iter().map(|v| v.to_string()).collect()
}

#[test]
fn extract_empty_template() {
    let ps = PlaceHolder::extract_placeholders("").unwrap();
    assert_eq!(ps.len(), 0);
}

#[test]
fn extract_template_without_placeholders() {
    let ps = PlaceHolder::extract_placeholders("echo hello world").unwrap();
    assert_eq!(ps.len(), 0);
}

#[test]
fn extract_counts_and_orders_occurrences() {
    let ps = PlaceHolder::extract_placeholders("cp <file> <directory>").unwrap();
    assert_eq!(ps.len(), 2);
    assert!(matches!(ps[0], PlaceHolder::File));
    assert!(matches!(ps[1], PlaceHolder::Directory));
}

#[test]
fn extract_duplicate_tokens_give_duplicate_entries() {
    let ps = PlaceHolder::extract_placeholders("mv <file> <file>").unwrap();
    assert_eq!(ps.len(), 2);
    assert!(matches!(ps[0], PlaceHolder::File));
    assert!(matches!(ps[1], PlaceHolder::File));
}

#[test]
fn extract_unknown_token_verbatim() {
    let ps = PlaceHolder::extract_placeholders("echo <foo>").unwrap();
    assert_eq!(ps.len(), 1);
    assert!(matches!(&ps[0], PlaceHolder::Unknown(raw) if raw == "<foo>"));
}

#[test]
fn extract_ignores_empty_and_unclosed_tokens() {
    assert_eq!(PlaceHolder::extract_placeholders("a<>b<c").unwrap().len(), 0);
    let ps = PlaceHolder::extract_placeholders("a<>b<c>").unwrap();
    assert_eq!(ps.len(), 1);
    assert!(matches!(&ps[0], PlaceHolder::Unknown(raw) if raw == "<c>"));
}

#[test]
fn extract_takes_shortest_match_from_first_open() {
    let ps = PlaceHolder::extract_placeholders("<a<b>").unwrap();
    assert_eq!(ps.len(), 1);
    assert!(matches!(&ps[0], PlaceHolder::Unknown(raw) if raw == "<a<b>"));
}

#[test]
fn classification_covers_every_canonical_spelling() {
    let table = [
        ("<PID>", PlaceHolder::PID),
        ("<file>", PlaceHolder::File),
        ("<directory>", PlaceHolder::Directory),
        ("<container>", PlaceHolder::Container),
        ("<image>", PlaceHolder::Image),
        ("<port>", PlaceHolder::Port),
        ("<user>", PlaceHolder::User),
        ("<group>", PlaceHolder::Group),
        ("<command>", PlaceHolder::Command),
        ("<package>", PlaceHolder::Package),
        ("<interface>", PlaceHolder::Interface),
        ("<service>", PlaceHolder::Service),
        ("<ip_address>", PlaceHolder::IPAddress),
        ("<url>", PlaceHolder::URL),
        ("<device>", PlaceHolder::Device),
        ("<disk>", PlaceHolder::Disk),
        ("<shell>", PlaceHolder::Shell),
        ("<date>", PlaceHolder::Date),
        ("<time>", PlaceHolder::Time),
        ("<signal>", PlaceHolder::Signal),
        ("<history>", PlaceHolder::History),
    ];
    for (text, expected) in table {
        let got = PlaceHolder::from_string(text);
        assert_eq!(
            std::mem::discriminant(&got),
            std::mem::discriminant(&expected),
            "spelling {} classified wrongly",
            text
        );
        assert_eq!(got.token_text(), text);
    }
}

#[test]
fn classification_is_case_sensitive() {
    let got = PlaceHolder::from_string("<pid>");
    assert!(matches!(&got, PlaceHolder::Unknown(raw) if raw == "<pid>"));
}

#[test]
fn resolve_unknown_fails_with_raw_text() {
    let ph = PlaceHolder::from_string("<foo>");
    let err = ph.handle().unwrap_err();
    assert!(matches!(&err, SnipsterError::UnknownPlaceholder(raw) if raw == "<foo>"));
    assert_eq!(err.message(), "Unknown placeholder: <foo>");
}

#[test]
fn scenario_kill_pid() {
    let snip = snippet("kill -9 <PID>");
    let out = PlaceHolder::replace_with_value(&snip, &values(&["4821"])).unwrap();
    assert_eq!(out, "kill -9 4821");
}

#[test]
fn scenario_cp_file_directory() {
    let snip = snippet("cp <file> <directory>");
    let out = PlaceHolder::replace_with_value(&snip, &values(&["/tmp/a.txt", "/home/user"]))
        .unwrap();
    assert_eq!(out, "cp /tmp/a.txt /home/user");
}

#[test]
fn scenario_history_replaces_everything() {
    let snip = snippet("<history>");
    let out = PlaceHolder::replace_with_value(&snip, &values(&["ls -la /var/log"])).unwrap();
    assert_eq!(out, "ls -la /var/log");
}

#[test]
fn scenario_duplicate_occurrences_fill_in_order() {
    let snip = snippet("mv <file> <file>");
    let out = PlaceHolder::replace_with_value(&snip, &values(&["a.txt", "b.txt"])).unwrap();
    assert_eq!(out, "mv a.txt b.txt");
}

#[test]
fn substitute_without_placeholders_returns_template() {
    let snip = snippet("echo hello");
    let out = PlaceHolder::replace_with_value(&snip, &values(&[])).unwrap();
    assert_eq!(out, "echo hello");
}

#[test]
fn substitute_unknown_token_by_its_raw_text() {
    let snip = snippet("echo <foo>");
    let out = PlaceHolder::replace_with_value(&snip, &values(&["bar"])).unwrap();
    assert_eq!(out, "echo bar");
}

#[test]
fn count_mismatch_fails_whole_substitution() {
    let snip = snippet("kill -9 <PID>");
    let err = PlaceHolder::replace_with_value(&snip, &values(&[])).unwrap_err();
    assert!(matches!(err, SnipsterError::CountMismatch));
    let err = PlaceHolder::replace_with_value(&snip, &values(&["1", "2"])).unwrap_err();
    assert!(matches!(err, SnipsterError::CountMismatch));
    let none = snippet("echo hello");
    let err = PlaceHolder::replace_with_value(&none, &values(&["1"])).unwrap_err();
    assert!(matches!(err, SnipsterError::CountMismatch));
    assert_eq!(
        err.message(),
        "Mismatch in the number of placeholders and values"
    );
}

#[test]
fn reextraction_after_substitution_is_empty() {
    let snip = snippet("cp <file> <directory>");
    let out = PlaceHolder::replace_with_value(&snip, &values(&["a.txt", "/tmp"])).unwrap();
    assert_eq!(PlaceHolder::extract_placeholders(&out).unwrap().len(), 0);
}

#[test]
fn value_shaped_like_a_token_diverts_later_replacement() {
    // A value containing the token text itself is caught by the next
    // first-occurrence search: the second value lands inside the first.
    let snip = snippet("mv <file> <file>");
    let out = PlaceHolder::replace_with_value(&snip, &values(&["<file>", "x"])).unwrap();
    assert_eq!(out, "mv x <file>");
}

#[test]
fn substitute_leaves_token_free_content_alone() {
    let snip = Snippet {
        name: "manual".to_string(),
        content: "ls -la".to_string(),
        note: String::new(),
        placeholders: vec![PlaceHolder::File],
    };
    let out = PlaceHolder::replace_with_value(&snip, &values(&["ignored"])).unwrap();
    assert_eq!(out, "ls -la");
}

#[test]
fn add_snip_builds_the_record() {
    let snip = SnipsterCommand::add_snip("kill", "kill -9 <PID>", "end a process").unwrap();
    assert_eq!(snip.name, "kill");
    assert_eq!(snip.content, "kill -9 <PID>");
    assert_eq!(snip.note, "end a process");
    assert_eq!(snip.placeholders.len(), 1);
    assert!(matches!(snip.placeholders[0], PlaceHolder::PID));
}

#[test]
fn fzf_build_default_is_bare() {
    assert_eq!(FzfBuilder::new().build(), "fzf ");
}

#[test]
fn fzf_build_listing_configuration() {
    let cmd = FzfBuilder::new()
        .ansi()
        .reverse()
        .header(1)
        .bind("enter:become(echo {2})")
        .build();
    assert_eq!(
        cmd,
        "fzf --ansi --reverse  --header-lines=1 --bind='enter:become(echo {2})' "
    );
}

#[test]
fn fzf_build_renders_every_option() {
    let cmd = FzfBuilder::new()
        .multi()
        .ansi()
        .reverse()
        .header(120)
        .delimiter("\t")
        .with_nth("1,2,3")
        .preview("cat {}")
        .preview_window("up:4:wrap")
        .bind("enter:become(echo {5})")
        .height("40%")
        .build();
    assert_eq!(
        cmd,
        "fzf --multi --ansi --reverse  --header-lines=120  --delimiter=\t --with-nth=1,2,3 \
         --preview=cat {} --preview-window=up:4:wrap --bind='enter:become(echo {5})' --height=40% "
    );
}

#[test]
fn pipeline_pipes_enumeration_into_fzf() {
    let fzf = FzfBuilder::new().bind("enter:become(echo {1})");
    let pipeline = SnipsterCommand::fzf_pipeline(fzf, "getent passwd");
    assert_eq!(
        pipeline,
        "\n            getent passwd | fzf --bind='enter:become(echo {1})' "
    );
}

#[test]
fn handle_maps_each_kind_to_its_enumeration_command() {
    let cases = [
        (PlaceHolder::PID, "ps aux"),
        (PlaceHolder::File, "find ~ -type f"),
        (PlaceHolder::Directory, "find ~ -type d"),
        (PlaceHolder::Container, "docker ps"),
        (PlaceHolder::Image, "docker images"),
        (PlaceHolder::Port, "netstat -tuln"),
        (PlaceHolder::User, "getent passwd"),
        (PlaceHolder::Group, "getent group"),
        (PlaceHolder::Command, "compgen -c"),
        (PlaceHolder::Package, "dpkg --get-selections"),
        (PlaceHolder::Interface, "ip link show"),
        (PlaceHolder::Service, "systemctl list-units --type=service"),
        (PlaceHolder::IPAddress, "ip a"),
        (PlaceHolder::URL, "curl --list-only"),
        (PlaceHolder::Device, "lsblk"),
        (PlaceHolder::Disk, "lsblk -o NAME,SIZE,TYPE,MOUNTPOINT"),
        (PlaceHolder::Shell, "cat /etc/shells"),
        (PlaceHolder::Date, "date"),
        (PlaceHolder::Time, "date +'%H:%M:%S'"),
        (PlaceHolder::Signal, "kill -l"),
        (PlaceHolder::History, "history"),
    ];
    for (kind, command) in cases {
        let pipeline = kind.handle().unwrap();
        let expected_start = format!("\n            {} | fzf ", command);
        assert!(
            pipeline.starts_with(&expected_start),
            "pipeline for {} does not start with {:?}: {:?}",
            command,
            expected_start,
            pipeline
        );
    }
}

#[test]
fn handle_pid_uses_listing_options_and_second_column() {
    let pipeline = PlaceHolder::PID.handle().unwrap();
    assert_eq!(
        pipeline,
        "\n            ps aux | fzf --ansi --reverse  --header-lines=1 \
         --bind='enter:become(echo {2})' "
    );
}

#[test]
fn edit_command_produces_one_pipeline_per_occurrence() {
    let pipelines = SnipsterCommand::edit_command_with_input("cp <file> <directory>").unwrap();
    assert_eq!(pipelines.len(), 2);
    assert_eq!(pipelines[0], PlaceHolder::File.handle().unwrap());
    assert_eq!(pipelines[1], PlaceHolder::Directory.handle().unwrap());
}

#[test]
fn edit_command_prompts_once_per_duplicate_occurrence() {
    let pipelines = SnipsterCommand::edit_command_with_input("mv <file> <file>").unwrap();
    assert_eq!(pipelines.len(), 2);
    assert_eq!(pipelines[0], pipelines[1]);
}

#[test]
fn edit_command_aborts_on_first_unknown() {
    let err = SnipsterCommand::edit_command_with_input("<file> <foo> <bar>").unwrap_err();
    assert!(matches!(&err, SnipsterError::UnknownPlaceholder(raw) if raw == "<foo>"));
}

#[test]
fn command_failure_attaches_hint_for_missing_tools() {
    let err = SnipsterCommand::command_failure("sh: fzf: command not found");
    assert!(matches!(
        &err,
        SnipsterError::CommandError(m)
            if m == "sh: fzf: command not found Hint: Ensure fzf and jq are installed."
    ));
    let err = SnipsterCommand::command_failure("sh: jq: command not found");
    assert!(matches!(
        &err,
        SnipsterError::CommandError(m)
            if m == "sh: jq: command not found Hint: Ensure fzf and jq are installed."
    ));
}

#[test]
fn command_failure_without_known_pattern_has_no_hint() {
    let err = SnipsterCommand::command_failure("permission denied");
    assert!(matches!(
        &err,
        SnipsterError::CommandError(m) if m == "permission denied "
    ));
}

#[test]
fn error_messages_render_one_line_each() {
    assert_eq!(
        SnipsterError::CommandError("exit 1".to_string()).message(),
        "Command execution failed: exit 1"
    );
    assert_eq!(
        SnipsterError::OutputParsingError("bad utf8".to_string()).message(),
        "Output parsing failed: bad utf8"
    );
    assert_eq!(
        SnipsterError::SerdeError("eof".to_string()).message(),
        "Serialization or deserialization error: eof"
    );
    assert_eq!(
        SnipsterError::Utf8Error("invalid byte".to_string()).message(),
        "UTF-8 conversion failed: invalid byte"
    );
    assert_eq!(
        SnipsterError::IoError("no such file".to_string()).message(),
        "I/O operation failed: no such file"
    );
    assert_eq!(
        SnipsterError::PlaceHolderError("bad pattern".to_string()).message(),
        "Placeholder parsing failed: bad pattern"
    );
    assert_eq!(
        SnipsterError::ClipboardError("no display".to_string()).message(),
        "Failed to copy to clipboard: no display"
    );
}
