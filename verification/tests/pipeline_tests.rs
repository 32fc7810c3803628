use iocguard::allowlist::Allowlist;
use iocguard::cli::parse_arg_list;
use iocguard::domain::{load_allowlist, DomainRecord, DomainStatus};
use iocguard::error::{CliError, ReportError};
use iocguard::report::{
    escape_csv, render_rejected_csv, render_status_csv, render_summary, render_terminal_summary,
};
use iocguard::{count_allowlisted, count_not_rejected, count_with_status, process_input};

fn sample_records() -> (Vec<DomainRecord>, Allowlist) {
    let allowlist = load_allowlist("example.com\nsafe-school.edu\n");
    let content = "domain,source\n\
                   example.com,manual\n\
                   \n\
                   safe-school.edu,manual\n\
                   paypa1-login.xyz,email_gateway\n\
                   xn--phishing-test.com,proxy_log\n\
                   bad..domain,proxy_log\n\
                   -malformed.com,manual\n\
                   no-comma-here\n\
                   Good.Org.,feed\n";
    (process_input(content, &allowlist), allowlist)
}

#[test]
fn test_process_input_skips_header_and_blank_lines() {
    let (records, _) = sample_records();
    assert_eq!(records.len(), 8);
    assert_eq!(records[0].original, "example.com");
    assert_eq!(records[0].status, DomainStatus::Accepted);
    assert_eq!(records[2].status, DomainStatus::Suspicious);
    assert_eq!(records[4].status, DomainStatus::Rejected);
    assert_eq!(records[6].original, "no-comma-here");
    assert_eq!(records[6].source, "unknown");
    assert_eq!(
        records[6].reason,
        "Malformed CSV line: CSV parse error: Missing comma separator"
    );
    assert_eq!(records[7].normalized, Some("good.org".to_string()));
}

#[test]
fn test_process_input_header_only_or_empty() {
    let allowlist = Allowlist::new();
    assert_eq!(process_input("", &allowlist).len(), 0);
    assert_eq!(process_input("a.com,x", &allowlist).len(), 0);
    assert_eq!(process_input("h\r\n a.com,x \r\n", &allowlist).len(), 1);
}

#[test]
fn test_counts_partition() {
    let (records, allowlist) = sample_records();
    let accepted = count_with_status(&records, DomainStatus::Accepted);
    let suspicious = count_with_status(&records, DomainStatus::Suspicious);
    let rejected = count_with_status(&records, DomainStatus::Rejected);
    assert_eq!(accepted, 3);
    assert_eq!(suspicious, 2);
    assert_eq!(rejected, 3);
    assert_eq!(accepted + suspicious + rejected, records.len());
    assert_eq!(count_not_rejected(&records), 5);
    assert_eq!(count_not_rejected(&records) + rejected, records.len());
    assert_eq!(count_allowlisted(&records, &allowlist), 2);
}

#[test]
fn test_escape_csv() {
    assert_eq!(escape_csv("plain"), "plain");
    assert_eq!(escape_csv("a,b"), "\"a,b\"");
    assert_eq!(escape_csv("say \"hi\""), "\"say \"\"hi\"\"\"");
    assert_eq!(escape_csv("two\nlines"), "\"two\nlines\"");
    assert_eq!(escape_csv(""), "");
}

#[test]
fn test_render_csv_files() {
    let (records, _) = sample_records();
    let accepted = render_status_csv(&records, DomainStatus::Accepted);
    assert_eq!(
        accepted,
        "normalized_domain,source,status,reason\n\
         example.com,manual,accepted,\n\
         safe-school.edu,manual,accepted,\n\
         good.org,feed,accepted,\n"
    );
    let suspicious = render_status_csv(&records, DomainStatus::Suspicious);
    assert!(suspicious.contains("paypa1-login.xyz,email_gateway,suspicious,"));
    assert!(suspicious.contains("xn--phishing-test.com"));
    let rejected = render_rejected_csv(&records);
    assert!(rejected.starts_with("original_value,source,status,reason\n"));
    assert!(rejected.contains("bad..domain,proxy_log,rejected,Domain contains consecutive dots\n"));
    assert!(rejected.contains("-malformed.com"));
    assert!(rejected.contains("no-comma-here,unknown,rejected,"));
}

#[test]
fn test_render_summaries() {
    assert_eq!(
        render_summary(9, 3, 3, 2, 2),
        "IOCGuard Summary\n================\nTotal lines processed: 9\n\
         Valid domains:         3\nInvalid domains:       3\n\
         Suspicious domains:    2\nAllowlisted domains:   2\n"
    );
    let t = render_terminal_summary(8, 5, 3, 2, 2, "report");
    assert_eq!(
        t,
        "IOCGuard report\nProcessed lines    : 8\nValid domains      : 5\n\
         Invalid domains    : 3\nAllowlisted domains: 2\nSuspicious domains : 2\n\
         Report directory   : report\n"
    );
}

fn args(list: &[&str]) -> Vec<String> {
    list.iter().map(|s| s.to_string()).collect()
}

#[test]
fn test_parse_arg_list() {
    let ok = parse_arg_list(&args(&[
        "iocguard", "validate", "--input", "in.csv", "--allowlist", "allow.txt", "--out", "report",
    ]))
    .ok()
    .unwrap();
    assert_eq!(ok.input, "in.csv");
    assert_eq!(ok.allowlist, Some("allow.txt".to_string()));
    assert_eq!(ok.out, "report");

    let later_wins =
        parse_arg_list(&args(&["p", "validate", "--out", "a", "--input", "i", "--out", "b"]))
            .ok()
            .unwrap();
    assert_eq!(later_wins.out, "b");
    assert_eq!(later_wins.allowlist, None);
}

#[test]
fn test_parse_arg_list_errors() {
    assert_eq!(
        parse_arg_list(&args(&["p"])).err().unwrap(),
        "Usage: iocguard validate --input <path> [--allowlist <path>] --out <path>"
    );
    assert_eq!(
        parse_arg_list(&args(&["p", "check"])).err().unwrap(),
        "Unknown subcommand 'check'. Expected 'validate'."
    );
    assert_eq!(
        parse_arg_list(&args(&["p", "validate", "--input"])).err().unwrap(),
        "Missing value for --input"
    );
    assert_eq!(
        parse_arg_list(&args(&["p", "validate", "--allowlist"])).err().unwrap(),
        "Missing value for --allowlist"
    );
    assert_eq!(
        parse_arg_list(&args(&["p", "validate", "--input", "i", "--out"])).err().unwrap(),
        "Missing value for --out"
    );
    assert_eq!(
        parse_arg_list(&args(&["p", "validate", "--json"])).err().unwrap(),
        "Unknown argument '--json'"
    );
    assert_eq!(
        parse_arg_list(&args(&["p", "validate", "--out", "o"])).err().unwrap(),
        "Missing required argument --input"
    );
    assert_eq!(
        parse_arg_list(&args(&["p", "validate", "--input", "i"])).err().unwrap(),
        "Missing required argument --out"
    );
}

#[test]
fn test_error_messages() {
    assert_eq!(
        CliError::MissingArgument("input".to_string()).to_string(),
        "Missing required argument --input"
    );
    assert_eq!(
        CliError::UnknownArgument("--x".to_string()).to_string(),
        "Unknown argument '--x'"
    );
    assert_eq!(
        CliError::UnknownSubcommand("run".to_string()).to_string(),
        "Unknown subcommand 'run'. Expected 'validate'"
    );
    assert!(CliError::Usage.to_string().starts_with("Usage: iocguard validate"));
    assert_eq!(
        ReportError::CreateDirectory("out".to_string(), "denied".to_string()).to_string(),
        "Failed to create directory 'out': denied"
    );
    assert_eq!(
        ReportError::CreateFile("out/a.csv".to_string(), "denied".to_string()).to_string(),
        "Failed to create file 'out/a.csv': denied"
    );
    assert_eq!(
        ReportError::WriteError("out/a.csv".to_string(), "full".to_string()).to_string(),
        "Failed to write to 'out/a.csv': full"
    );
}
