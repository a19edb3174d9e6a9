use lazarus::args::rewrite_args;
use lazarus::cli::{Cli, Commands, ConfigCmd, DbCmd, ExerciseCmd, ProgramCmd, SessionCmd, StartArgs};
use lazarus::pr::{
    authoritative_record, best_metric, check_new_record, epley_1rm, estimated_1rm_x30,
    metric_of_candidate, pick_better, Candidate,
};
use lazarus::models::PersonalRecord;
use lazarus::refs::{parse_i64, parse_reference, Reference};
use lazarus::text::{
    find_char, has_control_chars, is_whitespace, plain_len, split, starts_with, str_eq, str_less,
    trim,
};
use lazarus::types::{
    alias_target, handle_config, CommandNode, Config, ConfigOutput, OutputFmt,
};
use lazarus::utils::{decimal_string, format_duration, format_span, push_decimal};

fn strings(items: &[&str]) -> Vec<String> {
    items.iter().map(|s| s.to_string()).collect()
}

fn node(name: &str, aliases: &[&str], subcommands: Vec<CommandNode>) -> CommandNode {
    CommandNode { name: name.to_string(), aliases: strings(aliases), subcommands }
}

fn tree() -> CommandNode {
    node(
        "lazarus",
        &[],
        vec![
            node("session", &["s"], vec![node("start", &["s"], vec![]), node("end", &[], vec![])]),
            node("exercise", &["ex"], vec![node("list", &["l"], vec![])]),
        ],
    )
}

const FILE: &str = "# comment\njson = true\n\naliases.session.start = st\nbad line\n  aliases.session =  s  \njson=1\r\n= x\nkey =\n";

#[test]
fn a_configuration_file_is_read_line_by_line() {
    let cfg = Config::parse(FILE);
    let want: Vec<(String, String)> = [
        ("json", "1"),
        ("aliases.session.start", "st"),
        ("aliases.session", "s"),
        ("", "x"),
        ("key", ""),
    ]
    .iter()
    .map(|(k, v)| (k.to_string(), v.to_string()))
    .collect();
    assert_eq!(cfg.map, want);
    assert_eq!(cfg.get("json"), Some(&"1".to_string()));
    assert_eq!(cfg.get("key"), Some(&String::new()));
    assert_eq!(cfg.get("JSON"), None);
    assert!(Config::parse("").map.is_empty());
    assert!(Config::parse("no equals sign\n#a=b\n   \n").map.is_empty());
    assert_eq!(Config::parse("a=b=c").map, vec![("a".to_string(), "b=c".to_string())]);
}

#[test]
fn a_configuration_is_written_line_by_line() {
    let cfg = Config::parse(FILE);
    assert_eq!(
        cfg.render(),
        "json = 1\naliases.session.start = st\naliases.session = s\n = x\nkey = \n"
    );
    assert_eq!(Config::new().render(), "");
    let again = Config::parse(&Config::parse("a = 1\nb = two words\n").render());
    assert_eq!(again.map, vec![("a".to_string(), "1".to_string()), ("b".to_string(), "two words".to_string())]);
}

#[test]
fn json_default_reads_the_json_key() {
    assert!(Config::parse("json = true").json_default());
    assert!(Config::parse("json = 1").json_default());
    assert!(!Config::parse("json = yes").json_default());
    assert!(!Config::parse("json = TRUE").json_default());
    assert!(!Config::parse("json = 0").json_default());
    assert!(!Config::parse("json =").json_default());
    assert!(!Config::new().json_default());
    assert!(Config::parse("json = 0\njson = true").json_default());
    assert!(!Config::parse("jsonx = true").json_default());
    let fmt = OutputFmt { json: Config::parse("json = 1").json_default() };
    assert!(fmt.json);
}

#[test]
fn aliases_are_command_paths() {
    let cfg = Config::parse(FILE);
    let aliases = cfg.aliases();
    assert_eq!(
        aliases,
        vec![
            ("st".to_string(), strings(&["session", "start"])),
            ("s".to_string(), strings(&["session"])),
        ]
    );
    assert_eq!(alias_target(&aliases, "st"), Some(&strings(&["session", "start"])));
    assert_eq!(alias_target(&aliases, "x"), None);
    // of two entries for one short name the later decides
    let twice = Config::parse("aliases.exercise = e\naliases.session.end = e\naliases. = odd\naliases = no\n");
    assert_eq!(
        twice.aliases(),
        vec![("e".to_string(), strings(&["session", "end"])), ("odd".to_string(), strings(&[""]))]
    );
    assert!(Config::new().aliases().is_empty());
}

#[test]
fn keys_are_checked_against_the_commands() {
    let cfg = Config::new();
    let root = tree();
    for key in ["json", "aliases.session", "aliases.session.start", "aliases.s.s", "aliases.ex.l", "aliases.exercise.list"] {
        assert!(cfg.validate_key(key, &root), "{}", key);
    }
    for key in [
        "JSON",
        "",
        "aliases",
        "aliases.",
        "aliases.session.",
        "aliases.session.stop",
        "aliases.start",
        "aliases.lazarus",
        "alias.session",
        "aliases.session.start.now",
        "json ",
    ] {
        assert!(!cfg.validate_key(key, &root), "{}", key);
    }
}

#[test]
fn configuration_commands_change_the_configuration() {
    let root = tree();
    let mut cfg = Config::new();
    let set = |key: &str, val: &str| ConfigCmd::SetValue { key: key.to_string(), val: val.to_string() };
    assert_eq!(handle_config(&set("json", "true"), &mut cfg, &root), ConfigOutput::Stored);
    assert_eq!(handle_config(&set("aliases.session", "s"), &mut cfg, &root), ConfigOutput::Stored);
    assert_eq!(handle_config(&set("colour", "red"), &mut cfg, &root), ConfigOutput::Invalid);
    assert_eq!(handle_config(&set("json", "1"), &mut cfg, &root), ConfigOutput::Stored);
    let entries = vec![("json".to_string(), "1".to_string()), ("aliases.session".to_string(), "s".to_string())];
    assert_eq!(handle_config(&ConfigCmd::List, &mut cfg, &root), ConfigOutput::Listed(entries.clone()));
    assert_eq!(cfg.map, entries);
    let get = |key: &str| ConfigCmd::Get { key: key.to_string() };
    assert_eq!(handle_config(&get("json"), &mut cfg, &root), ConfigOutput::Found("1".to_string()));
    assert_eq!(handle_config(&get("colour"), &mut cfg, &root), ConfigOutput::Missing);
    let unset = |key: &str| ConfigCmd::Unset { key: key.to_string() };
    assert_eq!(handle_config(&unset("colour"), &mut cfg, &root), ConfigOutput::Missing);
    assert_eq!(handle_config(&unset("json"), &mut cfg, &root), ConfigOutput::Removed);
    assert_eq!(cfg.map, vec![("aliases.session".to_string(), "s".to_string())]);
    assert!(cfg.remove("aliases.session"));
    assert!(!cfg.remove("aliases.session"));
    cfg.insert("a".to_string(), "1".to_string());
    cfg.insert("b".to_string(), "2".to_string());
    cfg.insert("a".to_string(), "3".to_string());
    assert_eq!(cfg.map, vec![("a".to_string(), "3".to_string()), ("b".to_string(), "2".to_string())]);
}

#[test]
fn aliases_on_the_command_line_are_replaced() {
    let aliases = vec![
        ("st".to_string(), strings(&["session", "start"])),
        ("s".to_string(), strings(&["session"])),
    ];
    let run = |args: &[&str]| rewrite_args(&aliases, &strings(args));
    assert_eq!(run(&["lazarus", "st", "P", "B"]), strings(&["lazarus", "session", "start", "P", "B"]));
    assert_eq!(run(&["lazarus", "session", "st"]), strings(&["lazarus", "session", "start"]));
    assert_eq!(run(&["lazarus", "exercise", "st"]), strings(&["lazarus", "exercise", "session", "start"]));
    assert_eq!(run(&["lazarus", "s", "s"]), strings(&["lazarus", "session"]));
    assert_eq!(run(&["lazarus", "s", "st", "1"]), strings(&["lazarus", "session", "start", "1"]));
    assert_eq!(run(&["st"]), strings(&["st"]));
    assert_eq!(run(&["lazarus"]), strings(&["lazarus"]));
    assert_eq!(run(&["lazarus", "--json", "st"]), strings(&["lazarus", "--json", "session", "start"]));
    assert_eq!(rewrite_args(&Vec::new(), &strings(&["lazarus", "st"])), strings(&["lazarus", "st"]));
}

#[test]
fn colour_codes_are_not_counted() {
    assert_eq!(plain_len(""), 0);
    assert_eq!(plain_len("abc"), 3);
    assert_eq!(plain_len("\x1b[1mBold\x1b[0m"), 4);
    assert_eq!(plain_len("\x1b[31"), 0);
    assert_eq!(plain_len("a\x1b[0mb\x1bmc"), 3);
    assert_eq!(plain_len("mm\x1b[mm"), 3);
    assert_eq!(plain_len("\x1b\x1b[1mx"), 1);
    // the length is counted in bytes
    assert_eq!(plain_len("é•"), 5);
    // 3 + 3 + 1 bytes, then 5, 2, 5 and 2
    assert_eq!(plain_len(" 1 • \x1b[1mBench\x1b[0m (\x1b[33mchest\x1b[0m) "), 21);
}

#[test]
fn durations_are_written_with_two_digits() {
    assert_eq!(format_duration(0), "00:00:00");
    assert_eq!(format_duration(59), "00:00:59");
    assert_eq!(format_duration(60), "00:01:00");
    assert_eq!(format_duration(3_723), "01:02:03");
    assert_eq!(format_duration(86_399), "23:59:59");
    assert_eq!(format_duration(360_000), "100:00:00");
    assert_eq!(format_duration(u64::MAX), "5124095576030431:00:15");
    assert_eq!(format_span(0), "0m");
    assert_eq!(format_span(59), "0m");
    assert_eq!(format_span(125), "2m");
    assert_eq!(format_span(3_600), "1h 0m");
    assert_eq!(format_span(3_723), "1h 2m");
    assert_eq!(format_span(90_000), "25h 0m");
}

#[test]
fn numbers_are_written_in_decimal() {
    assert_eq!(decimal_string(0), "0");
    assert_eq!(decimal_string(7), "7");
    assert_eq!(decimal_string(10), "10");
    assert_eq!(decimal_string(1_234_567_890), "1234567890");
    assert_eq!(decimal_string(u64::MAX), "18446744073709551615");
    let mut text = "n=".to_string();
    push_decimal(&mut text, 405);
    assert_eq!(text, "n=405");
    for n in [0u64, 9, 10, 99, 100, 12_345, u64::MAX] {
        assert_eq!(decimal_string(n), n.to_string());
        assert_eq!(parse_i64(&decimal_string(n)), i64::try_from(n).ok());
    }
}

#[test]
fn integers_are_read_with_their_sign() {
    assert_eq!(parse_i64("0"), Some(0));
    assert_eq!(parse_i64("42"), Some(42));
    assert_eq!(parse_i64("+42"), Some(42));
    assert_eq!(parse_i64("-42"), Some(-42));
    assert_eq!(parse_i64("007"), Some(7));
    assert_eq!(parse_i64("-0"), Some(0));
    assert_eq!(parse_i64("9223372036854775807"), Some(i64::MAX));
    assert_eq!(parse_i64("9223372036854775808"), None);
    assert_eq!(parse_i64("-9223372036854775808"), Some(i64::MIN));
    assert_eq!(parse_i64("-9223372036854775809"), None);
    assert_eq!(parse_i64("99999999999999999999999999999999999999999"), None);
    for text in ["", "+", "-", "1 ", " 1", "1.0", "1e3", "--1", "+-1", "one", "１"] {
        assert_eq!(parse_i64(text), None, "{:?}", text);
        assert_eq!(parse_i64(text), text.parse::<i64>().ok());
    }
    assert_eq!(parse_reference("3"), Reference::Index(3));
    assert_eq!(parse_reference("-3"), Reference::Index(-3));
    assert_eq!(parse_reference("Bench Press"), Reference::Name("Bench Press".to_string()));
    assert_eq!(parse_reference("3 sets"), Reference::Name("3 sets".to_string()));
    assert_eq!(parse_reference(""), Reference::Name(String::new()));
}

#[test]
fn texts_are_trimmed_split_and_ordered() {
    assert_eq!(trim("  a b \n"), "a b");
    assert_eq!(trim("\u{3000}x\u{a0}"), "x");
    assert_eq!(trim(""), "");
    assert_eq!(trim(" \t\r\n"), "");
    assert_eq!(trim("x"), "x");
    for text in ["  a b \n", "\u{2003}é \u{85}", "\u{1680}\u{200a}y\u{2028}\u{2029}\u{202f}\u{205f}", "\u{200b}z\u{feff}"] {
        assert_eq!(trim(text), text.trim());
    }
    for c in ['\t', '\n', '\u{b}', '\u{c}', '\r', ' ', '\u{85}', '\u{a0}', '\u{2000}', '\u{3000}'] {
        assert!(is_whitespace(c));
    }
    for c in ['a', '\u{8}', '\u{e}', '\u{200b}', '\u{1}', '_'] {
        assert_eq!(is_whitespace(c), c.is_whitespace());
    }
    assert_eq!(split("a.b..c", '.'), strings(&["a", "b", "", "c"]));
    assert_eq!(split("", '.'), strings(&[""]));
    assert_eq!(split(".", '.'), strings(&["", ""]));
    assert_eq!(split("session", '.'), strings(&["session"]));
    assert_eq!(split("é.ü.", '.'), strings(&["é", "ü", ""]));
    assert_eq!(find_char("a=b=c", '=', 0), 1);
    assert_eq!(find_char("a=b=c", '=', 2), 3);
    assert_eq!(find_char("a=b=c", '=', 4), 5);
    assert_eq!(find_char("", '=', 0), 0);
    assert!(str_less("a", "b"));
    assert!(str_less("a", "ab"));
    assert!(str_less("", "a"));
    assert!(!str_less("a", "a"));
    assert!(!str_less("b", "a"));
    assert!(!str_less("", ""));
    assert!(str_less("B", "a"));
    assert!(str_less("z", "é"));
    for (a, b) in [("Legs", "Push"), ("push", "Push"), ("abc", "abd"), ("ab", "abc"), ("é", "e")] {
        assert_eq!(str_less(a, b), a < b);
        assert_eq!(str_less(b, a), b < a);
    }
    assert!(str_eq("abc", "abc"));
    assert!(!str_eq("abc", "abd"));
    assert!(!str_eq("abc", "ab"));
    assert!(str_eq("", ""));
    assert!(starts_with("aliases.session", "aliases."));
    assert!(starts_with("aliases.", "aliases."));
    assert!(!starts_with("aliases", "aliases."));
    assert!(!starts_with("Aliases.x", "aliases."));
    assert!(starts_with("x", ""));
    assert!(has_control_chars("a\tb"));
    assert!(has_control_chars("\u{7f}"));
    assert!(has_control_chars("\u{9f}"));
    assert!(!has_control_chars("a b"));
    assert!(!has_control_chars("\u{a0}"));
    assert!(!has_control_chars(""));
}

#[test]
fn the_estimate_follows_epley() {
    // thirty times weight * (1 + reps / 30)
    assert_eq!(estimated_1rm_x30(100_000, 5), 3_500_000);
    assert_eq!(estimated_1rm_x30(100_000, 1), 3_100_000);
    assert_eq!(estimated_1rm_x30(100_000, 30), 6_000_000);
    assert_eq!(estimated_1rm_x30(100_000, 0), 0);
    assert_eq!(estimated_1rm_x30(0, 12), 0);
    assert_eq!(estimated_1rm_x30(62_500, 8), 2_375_000);
    assert_eq!(estimated_1rm_x30(u32::MAX, u32::MAX), 4_294_967_295 * 4_294_967_325);
    assert_eq!(epley_1rm(100_000, 5), 116_666);
    assert_eq!(epley_1rm(100_000, 30), 200_000);
    assert_eq!(epley_1rm(60_000, 10), 80_000);
    assert_eq!(epley_1rm(100_000, 0), 0);
    assert_eq!(metric_of_candidate(Candidate { weight: 0, reps: 12 }), 12);
    assert_eq!(metric_of_candidate(Candidate { weight: 50_000, reps: 12 }), 2_100_000);
}

#[test]
fn the_record_engine_keeps_the_tracks_apart() {
    let record = |exercise_id: u128, weight: u32, reps: u32, date: u64| PersonalRecord {
        exercise_id,
        date,
        weight,
        reps,
        estimated_1rm_x30: estimated_1rm_x30(weight, reps),
    };
    let log = vec![
        record(1, 100_000, 5, 10),
        record(2, 150_000, 5, 20),
        record(1, 0, 12, 30),
        record(1, 105_000, 5, 40),
        record(1, 0, 15, 50),
    ];
    assert_eq!(best_metric(&log, 1, 80_000), Some(3_675_000));
    assert_eq!(best_metric(&log, 1, 0), Some(15));
    assert_eq!(best_metric(&log, 2, 1), Some(5_250_000));
    assert_eq!(best_metric(&log, 2, 0), None);
    assert_eq!(best_metric(&log, 3, 1), None);
    let weighted = |weight: u32, reps: u32| Candidate { weight, reps };
    assert!(check_new_record(&log, 1, weighted(105_000, 6)));
    assert!(!check_new_record(&log, 1, weighted(105_000, 5)));
    assert!(!check_new_record(&log, 1, weighted(100_000, 6)));
    assert!(check_new_record(&log, 1, weighted(0, 16)));
    assert!(!check_new_record(&log, 1, weighted(0, 15)));
    // many repetitions without weight do not beat a weighted record, nor the other way round
    assert!(check_new_record(&log, 2, weighted(0, 1)));
    assert!(!check_new_record(&log, 2, weighted(0, 0)));
    assert!(check_new_record(&log, 3, weighted(1, 1)));
    assert!(!check_new_record(&log, 3, weighted(1, 0)));
    assert!(!check_new_record(&Vec::new(), 3, weighted(100_000, 0)));
    assert_eq!(authoritative_record(&log, 1), Some(log[3]));
    assert_eq!(authoritative_record(&log, 2), Some(log[1]));
    assert_eq!(authoritative_record(&log, 3), None);
    // on a tie the later record is shown
    assert_eq!(authoritative_record(&log[..3].to_vec(), 1), Some(log[0]));
    let bodyweight_only = vec![record(4, 0, 5, 1), record(4, 0, 8, 2)];
    assert_eq!(authoritative_record(&bodyweight_only, 4), Some(bodyweight_only[1]));
    assert_eq!(pick_better(None, weighted(0, 3)), weighted(0, 3));
    assert_eq!(pick_better(Some(weighted(0, 30)), weighted(10, 1)), weighted(10, 1));
    assert_eq!(pick_better(Some(weighted(10, 1)), weighted(0, 30)), weighted(10, 1));
    assert_eq!(pick_better(Some(weighted(0, 3)), weighted(0, 4)), weighted(0, 4));
    assert_eq!(pick_better(Some(weighted(0, 4)), weighted(0, 4)), weighted(0, 4));
    assert_eq!(pick_better(Some(weighted(70_000, 10)), weighted(80_000, 5)), weighted(70_000, 10));
    assert_eq!(pick_better(Some(weighted(70_000, 10)), weighted(80_000, 6)), weighted(80_000, 6));
}

#[test]
fn commands_are_plain_values() {
    let cli = Cli {
        json: true,
        cmd: Commands::Session(SessionCmd::Start(StartArgs {
            program: "P".to_string(),
            block: "B".to_string(),
            week: None,
        })),
    };
    assert!(cli.json);
    assert_eq!(cli.clone(), cli);
    let others = [
        Commands::Exercise(ExerciseCmd::List { muscle: None }),
        Commands::Config(ConfigCmd::List),
        Commands::Program(ProgramCmd::List),
        Commands::Calendar { year: Some(2024), month: None },
        Commands::Status { muscle: None, weeks: 12, graph: false },
        Commands::Db(DbCmd::Export { file: None }),
    ];
    for (i, a) in others.iter().enumerate() {
        for (j, b) in others.iter().enumerate() {
            assert_eq!(a == b, i == j);
        }
    }
}

#[test]
fn no_key_of_a_configuration_occurs_twice() {
    let distinct = |keys: Vec<&String>| {
        keys.iter().enumerate().all(|(i, k)| keys[..i].iter().all(|other| other != k))
    };
    let cfg = Config::parse("a = 1\nb = 2\na = 3\n b=4\naliases.x = s\naliases.y = s\n");
    assert_eq!(cfg.map.len(), 4);
    assert!(distinct(cfg.map.iter().map(|e| &e.0).collect()));
    assert_eq!(cfg.get("a"), Some(&"3".to_string()));
    assert_eq!(cfg.get("b"), Some(&"4".to_string()));
    let aliases = cfg.aliases();
    assert_eq!(aliases, vec![("s".to_string(), strings(&["y"]))]);
    assert!(distinct(aliases.iter().map(|e| &e.0).collect()));
    let mut cfg = cfg;
    cfg.insert("b".to_string(), "5".to_string());
    cfg.insert("c".to_string(), "6".to_string());
    assert!(cfg.remove("a"));
    assert!(distinct(cfg.map.iter().map(|e| &e.0).collect()));
    let keys: Vec<&str> = cfg.map.iter().map(|e| e.0.as_str()).collect();
    assert_eq!(keys, vec!["b", "aliases.x", "aliases.y", "c"]);
}
