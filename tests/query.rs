use procquery::ast::pid_text;
use procquery::parse::{strip_quotes, unit_of};
use procquery::token::tokenize_query;
use procquery::{
    parse_query, Decimal, PrefixType, ProcessQuery, ProcessRecord, QueryComparison, QueryError,
    SearchState, StringQuery,
};

fn num(s: &str) -> Decimal {
    Decimal::parse(s).expect("a number")
}

fn record(name: &str, pid: u32, cpu: &str, mem: &str) -> ProcessRecord {
    ProcessRecord {
        name: name.to_string(),
        pid,
        cpu_usage: num(cpu),
        mem_usage: num(mem),
        rps: num("0"),
        wps: num("0"),
        total_read: num("0"),
        total_write: num("0"),
    }
}

fn passes(query: &str, p: &ProcessRecord) -> bool {
    parse_query(query, false, false, false).expect("a valid query").check(p)
}

#[test]
fn strict_greater_compares_cpu() {
    assert!(passes("cpu>50.0", &record("a", 1, "75.0", "0")));
    assert!(!passes("cpu>50.0", &record("a", 1, "50.0", "0")));
    assert!(passes("cpu>=50.0", &record("a", 1, "50.0", "0")));
    assert!(passes("cpu >= 50", &record("a", 1, "50.0", "0")));
}

#[test]
fn each_operator_compares_exactly() {
    let p = record("a", 1, "50", "20.5");
    assert!(passes("cpu=50", &p));
    assert!(passes("cpu = 50.000", &p));
    assert!(!passes("cpu=50.5", &p));
    assert!(passes("mem<21", &p));
    assert!(!passes("mem<20.5", &p));
    assert!(passes("mem<=20.5", &p));
    assert!(!passes("mem<=20.4", &p));
    assert!(passes("MEM>-3", &p));
    assert!(passes("cpu=5e1", &p));
    assert!(passes("read<1e3 KB", &record("a", 1, "0", "0")));
}

#[test]
fn units_scale_thresholds() {
    let q = parse_query("read > 1 GiB", false, false, false).unwrap();
    let (kind, n) = q.query.lhs.lhs.compare_prefix.expect("a comparison");
    assert_eq!(kind, PrefixType::TRead);
    assert_eq!(n.condition, QueryComparison::Greater);
    assert_eq!((n.value.negative, n.value.mantissa, n.value.scale), (false, 1_073_741_824, 0));

    let q = parse_query("write=500 KB", false, false, false).unwrap();
    let (kind, n) = q.query.lhs.lhs.compare_prefix.expect("a comparison");
    assert_eq!(kind, PrefixType::TWrite);
    assert_eq!(n.condition, QueryComparison::Equal);
    assert_eq!((n.value.mantissa, n.value.scale), (500_000, 0));

    let q = parse_query("r < 1.5 MB", false, false, false).unwrap();
    let (_, n) = q.query.lhs.lhs.compare_prefix.unwrap();
    assert_eq!((n.value.mantissa, n.value.scale), (15_000_000, 1));
}

#[test]
fn unit_written_onto_the_number() {
    let q = parse_query("read>1GiB", false, false, false).unwrap();
    assert!(q.query.rhs.is_none() && q.query.lhs.rhs.is_none());
    let (kind, n) = q.query.lhs.lhs.compare_prefix.unwrap();
    assert_eq!(kind, PrefixType::TRead);
    assert_eq!(n.condition, QueryComparison::Greater);
    assert_eq!((n.value.mantissa, n.value.scale), (1_073_741_824, 0));

    let q = parse_query("write=500KB", false, false, false).unwrap();
    let (kind, n) = q.query.lhs.lhs.compare_prefix.unwrap();
    assert_eq!(kind, PrefixType::TWrite);
    assert_eq!(n.condition, QueryComparison::Equal);
    assert_eq!((n.value.mantissa, n.value.scale), (500_000, 0));

    let q = parse_query("w>=2TB", false, false, false).unwrap();
    let (_, n) = q.query.lhs.lhs.compare_prefix.unwrap();
    assert_eq!(n.value.mantissa, 2_000_000_000_000);

    assert!(matches!(parse_query("cpu>1GiB", false, false, false), Err(QueryError::ComparatorParseFailure)));
    assert!(matches!(parse_query("r>1XB", false, false, false), Err(QueryError::ComparatorParseFailure)));
}

#[test]
fn unit_after_cpu_is_left_over() {
    assert!(matches!(parse_query("cpu > 5 KB", false, false, false), Err(QueryError::ComparatorParseFailure)));
}

#[test]
fn unit_table() {
    assert_eq!(unit_of("TB"), Some(1_000_000_000_000));
    assert_eq!(unit_of("TiB"), Some(1_099_511_627_776));
    assert_eq!(unit_of("GB"), Some(1_000_000_000));
    assert_eq!(unit_of("GiB"), Some(1_073_741_824));
    assert_eq!(unit_of("MB"), Some(1_000_000));
    assert_eq!(unit_of("MiB"), Some(1_048_576));
    assert_eq!(unit_of("KB"), Some(1000));
    assert_eq!(unit_of("KiB"), Some(1024));
    assert_eq!(unit_of("B"), Some(1));
    assert_eq!(unit_of("kb"), None);
}

#[test]
fn and_chain_matches_grouped_form() {
    let values = ["0", "5"];
    for a in values {
        for b in values {
            for c in values {
                let mut p = record("x", 1, a, b);
                p.rps = num(c);
                let chained = passes("cpu>1 and mem>1 and r>1", &p);
                let grouped = passes("(cpu>1 and mem>1) and r>1", &p);
                let expected = a == "5" && b == "5" && c == "5";
                assert_eq!(chained, expected);
                assert_eq!(grouped, expected);
            }
        }
    }
}

#[test]
fn and_chain_folds_left() {
    let q = parse_query("a && b AND c", false, false, false).unwrap();
    let group = q.query.lhs.lhs.and.as_ref().expect("a folded group");
    assert!(group.rhs.is_some());
    assert!(q.query.lhs.rhs.is_none());
    assert!(q.query.rhs.is_some());
}

#[test]
fn or_chain_is_any() {
    for (name, expected) in [("a", true), ("b", true), ("c", true), ("d", false)] {
        let p = record(name, 1, "0", "0");
        assert_eq!(passes("a or b || c", &p), expected);
    }
}

#[test]
fn parenthesised_or_binds_inside_and() {
    let q = "(cpu>10 or mem>10) and pid=100";
    assert!(passes(q, &record("x", 100, "20", "0")));
    assert!(passes(q, &record("x", 100, "0", "20")));
    assert!(!passes(q, &record("x", 100, "0", "0")));
    assert!(!passes(q, &record("x", 5, "20", "20")));
    let parsed = parse_query(q, false, false, false).unwrap();
    assert!(parsed.query.lhs.lhs.and.is_some());
    assert!(parsed.query.rhs.is_some());
}

#[test]
fn or_binds_tighter_than_and() {
    let q = "cpu>10 or mem>10 and pid=100";
    // parses as (cpu>10 or mem>10) and pid=100 at the And level
    assert!(!passes(q, &record("x", 5, "20", "0")));
    assert!(passes(q, &record("x", 100, "20", "0")));
}

#[test]
fn whole_word_ignoring_case() {
    let q = parse_query("chrome", true, true, false).unwrap();
    assert!(q.check(&record("Chrome", 1, "0", "0")));
    assert!(!q.check(&record("chromedriver", 1, "0", "0")));
    let q = parse_query("chrome", false, false, false).unwrap();
    assert!(!q.check(&record("Chrome", 1, "0", "0")));
    assert!(q.check(&record("chromedriver", 1, "0", "0")));
}

#[test]
fn literal_and_regex_modes_differ() {
    let names = ["a.b", "axb", "ab"];
    let literal = parse_query("a.b", false, false, false).unwrap();
    let regex = parse_query("a.b", false, false, true).unwrap();
    let lit: Vec<bool> = names.iter().map(|n| literal.check(&record(n, 1, "0", "0"))).collect();
    let re: Vec<bool> = names.iter().map(|n| regex.check(&record(n, 1, "0", "0"))).collect();
    assert_eq!(lit, vec![true, false, false]);
    assert_eq!(re, vec![true, true, false]);
}

#[test]
fn missing_value_is_an_error() {
    assert!(matches!(parse_query("cpu>", false, false, false), Err(QueryError::ComparatorParseFailure)));
    assert!(matches!(parse_query("mem >=", false, false, false), Err(QueryError::ComparatorParseFailure)));
    assert!(matches!(parse_query("pid", false, false, false), Err(QueryError::ComparatorParseFailure)));
    assert!(matches!(parse_query("pid =", false, false, false), Err(QueryError::ComparatorParseFailure)));
    assert!(matches!(parse_query("cpu > abc", false, false, false), Err(QueryError::ComparatorParseFailure)));
    assert!(matches!(parse_query("cpu 5", false, false, false), Err(QueryError::ComparatorParseFailure)));
}

#[test]
fn pid_without_value_is_an_error() {
    for q in ["pid>", "pid <", "pid (", "pid )", "pid"] {
        assert!(matches!(parse_query(q, false, false, false), Err(QueryError::ComparatorParseFailure)));
    }
}

#[test]
fn leftover_tokens_are_errors() {
    assert!(matches!(parse_query("chrome firefox", false, false, false), Err(QueryError::ComparatorParseFailure)));
    assert!(matches!(parse_query("cpu>5 )", false, false, false), Err(QueryError::MissingOpeningParen)));
}

#[test]
fn unknown_prefix_is_a_name_search() {
    let q = parse_query("foobar", false, false, true).unwrap();
    let (kind, text) = q.query.lhs.lhs.regex_prefix.as_ref().unwrap();
    assert_eq!(*kind, PrefixType::Name);
    match text {
        StringQuery::Regex(m) => assert_eq!(m.pattern_text(), "foobar"),
        StringQuery::Value(_) => panic!("not compiled"),
    }
    assert!(q.check(&record("xfoobarx", 1, "0", "0")));
    assert!(!q.check(&record("foo", 1, "0", "0")));
}

#[test]
fn quotes_are_trimmed_from_names() {
    let q = parse_query("\"cpu\"", true, false, false).unwrap();
    assert!(q.check(&record("cpu", 1, "0", "0")));
    assert_eq!(strip_quotes("\"\"ab\"c\"").as_str(), "ab\"c");
    assert_eq!(strip_quotes("\"\"").as_str(), "");
}

#[test]
fn pid_search() {
    let q = parse_query("pid=1234", true, false, false).unwrap();
    assert!(q.check(&record("x", 1234, "0", "0")));
    assert!(!q.check(&record("x", 12345, "0", "0")));
    let q = parse_query("pid 12", false, false, false).unwrap();
    assert!(q.check(&record("x", 12, "0", "0")));
    assert!(q.check(&record("x", 5123, "0", "0")));
}

#[test]
fn pattern_flags() {
    let q = parse_query("a+b", true, true, false).unwrap();
    let (_, text) = q.query.lhs.lhs.regex_prefix.as_ref().unwrap();
    match text {
        StringQuery::Regex(m) => assert_eq!(m.pattern_text(), "^(?i)a\\+b$"),
        StringQuery::Value(_) => panic!("not compiled"),
    }
}

#[test]
fn paren_errors() {
    assert!(matches!(parse_query("(cpu>5", false, false, false), Err(QueryError::MissingClosingParen)));
    assert!(matches!(parse_query("(cpu>5 x", false, false, false), Err(QueryError::MissingClosingParen)));
    assert!(matches!(parse_query(")", false, false, false), Err(QueryError::MissingOpeningParen)));
    assert!(matches!(parse_query("a or )", false, false, false), Err(QueryError::MissingOpeningParen)));
}

#[test]
fn dangling_operator_is_an_error() {
    assert!(matches!(parse_query("cpu>5 and", false, false, false), Err(QueryError::ComparatorParseFailure)));
    assert!(matches!(parse_query("a or", false, false, false), Err(QueryError::ComparatorParseFailure)));
}

#[test]
fn bad_regex_is_a_compile_error() {
    let r = parse_query("a[", false, false, true);
    match r {
        Err(QueryError::MatcherCompileFailure(m)) => assert!(!m.is_empty()),
        other => panic!("unexpected: {:?}", other),
    }
    assert!(parse_query("a[", false, false, false).is_ok());
}

#[test]
fn empty_query_matches_everything() {
    let q = parse_query("   ", false, false, false).unwrap();
    assert!(q.check(&record("anything", 7, "1", "1")));
}

#[test]
fn search_state_parses_its_text() {
    let s = SearchState {
        current_search_query: "Chrome".to_string(),
        is_searching_whole_word: true,
        is_ignoring_case: true,
        is_searching_with_regex: false,
    };
    let q = s.parse_query().unwrap();
    assert!(q.check(&record("chrome", 1, "0", "0")));
}

#[test]
fn tokens_split_on_delimiters() {
    let t: Vec<String> = tokenize_query("cpu>=50  (a)\tb=c");
    assert_eq!(t, vec!["cpu", ">", "=", "50", "(", "a", ")", "b", "=", "c"]);
    assert!(tokenize_query(" \u{3000} ").is_empty());
}

#[test]
fn decimals_parse_and_compare() {
    let d = num("-12.50");
    assert_eq!((d.negative, d.mantissa, d.scale), (true, 1250, 2));
    assert!(Decimal::parse("+.5").is_some());
    assert!(Decimal::parse("5.").is_some());
    assert!(Decimal::parse(".").is_none());
    let d = num("1e5");
    assert_eq!((d.negative, d.mantissa, d.scale), (false, 100_000, 0));
    let d = num("1.5E-2");
    assert_eq!((d.mantissa, d.scale), (15, 3));
    let d = num("-2.50e+1");
    assert_eq!((d.negative, d.mantissa, d.scale), (true, 250, 1));
    assert_eq!(num("0e99").mantissa, 0);
    assert!(Decimal::parse("1e").is_none());
    assert!(Decimal::parse("1e1.5").is_none());
    assert!(Decimal::parse("1e5.").is_none());
    assert!(Decimal::parse("e5").is_none());
    assert!(Decimal::parse("1e40").is_none());
    assert!(Decimal::parse("inf").is_none());
    assert!(Decimal::parse("1.2.3").is_none());
    assert!(Decimal::parse("").is_none());
    assert!(Decimal::parse("-").is_none());
    assert_eq!(procquery::number::compare(&num("1.50"), &num("1.5")), 0);
    assert_eq!(procquery::number::compare(&num("-0"), &num("0")), 0);
    assert_eq!(procquery::number::compare(&num("-2"), &num("1")), -1);
    assert_eq!(procquery::number::compare(&num("-2"), &num("-3")), 1);
    assert_eq!(procquery::number::compare(&num("0.00000000000000000000000000000000000000001"), &num("0")), 1);
}

#[test]
fn pid_rendering() {
    assert_eq!(pid_text(0).as_str(), "0");
    assert_eq!(pid_text(1234).as_str(), "1234");
    assert_eq!(pid_text(u32::MAX).as_str(), "4294967295");
}

#[test]
fn error_messages() {
    assert_eq!(QueryError::MissingClosingParen.message().as_str(), "Missing closing parentheses");
    assert_eq!(QueryError::ComparatorParseFailure.message().as_str(), "Failed to parse comparator.");
}

#[test]
fn prefix_keywords_ignore_case() {
    assert_eq!(PrefixType::from_token("CPU"), PrefixType::Cpu);
    assert_eq!(PrefixType::from_token("Mem"), PrefixType::Mem);
    assert_eq!(PrefixType::from_token("R"), PrefixType::Rps);
    assert_eq!(PrefixType::from_token("w"), PrefixType::Wps);
    assert_eq!(PrefixType::from_token("rEaD"), PrefixType::TRead);
    assert_eq!(PrefixType::from_token("WRITE"), PrefixType::TWrite);
    assert_eq!(PrefixType::from_token("Pid"), PrefixType::Pid);
    assert_eq!(PrefixType::from_token("pids"), PrefixType::Name);
    assert_eq!(PrefixType::from_token("\"cpu\""), PrefixType::Name);
}

#[test]
fn whole_numbers() {
    let d = Decimal::from_int(42);
    assert_eq!((d.negative, d.mantissa, d.scale), (false, 42, 0));
    assert_eq!(procquery::number::compare(&d, &num("42.0")), 0);
}

#[test]
fn prefix_type_from_str() {
    let t: PrefixType = "Cpu".parse().unwrap();
    assert_eq!(t, PrefixType::Cpu);
    let t: PrefixType = "foobar".parse().unwrap();
    assert_eq!(t, PrefixType::Name);
}

#[test]
fn equal_tolerates_epsilon() {
    assert!(passes("cpu=0.3", &record("a", 1, "0.30000000000000004", "0")));
    assert!(passes("cpu=0", &record("a", 1, "0.00000000000000000001", "0")));
    assert!(!passes("cpu=0.3", &record("a", 1, "0.3000000000000003", "0")));
    assert!(!passes("cpu=1", &record("a", 1, "-1", "0")));
    assert!(passes("mem=-2", &record("a", 1, "0", "-2.0000000000000001")));
    // 2^-52 exactly is not below the tolerance; just under it is
    assert!(!procquery::number::near(&num("0.0000000000000002220446049250313080847263336181640625"), &num("0")));
    assert!(procquery::number::near(&num("0.0000000000000002220446049250313080847263336181640624"), &num("0")));
    assert!(procquery::number::near(&num("-0.0000000000000001"), &num("0.0000000000000001")));
    assert!(!procquery::number::near(&num("-0.00000000000000012"), &num("0.00000000000000012")));
}
