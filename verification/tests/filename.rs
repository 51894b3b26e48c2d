use std::collections::BTreeSet;

use jmapsyncd::maildir::filename::{
    flag_to_keyword, flags_to_keywords, flags_to_suffix, generate_filename, keyword_to_flag,
    keywords_to_flags, normalize_flags, normalize_flags_lossy, parse_filename, parse_flags,
    FilenameParts, FlagError,
};

#[test]
fn parse_empty_flags() {
    assert_eq!(parse_flags("").unwrap(), "");
    assert_eq!(parse_flags(":2,").unwrap(), "");
}

#[test]
fn parse_single_flag() {
    assert_eq!(parse_flags("S").unwrap(), "S");
    assert_eq!(parse_flags(":2,S").unwrap(), "S");
}

#[test]
fn parse_multiple_flags_sorted() {
    assert_eq!(parse_flags("RS").unwrap(), "RS");
}

#[test]
fn parse_multiple_flags_unsorted() {
    assert_eq!(parse_flags("SR").unwrap(), "RS");
}

#[test]
fn parse_duplicate_flags() {
    assert_eq!(parse_flags("SS").unwrap(), "S");
}

#[test]
fn parse_all_flags() {
    assert_eq!(parse_flags("DFPRST").unwrap(), "DFPRST");
}

#[test]
fn parse_invalid_flag() {
    assert!(parse_flags("X").is_err());
    assert!(parse_flags("SX").is_err());
}

#[test]
fn parse_invalid_flag_lowercase() {
    assert!(parse_flags("s").is_err());
}

#[test]
fn flags_to_suffix_normalized() {
    assert_eq!(flags_to_suffix("SR"), ":2,RS");
    assert_eq!(flags_to_suffix(""), ":2,");
    assert_eq!(flags_to_suffix("S"), ":2,S");
}

#[test]
fn flags_to_suffix_ignores_invalid() {
    assert_eq!(flags_to_suffix("SX"), ":2,S");
}

#[test]
fn parse_filename_with_suffix() {
    let parts = parse_filename("1700000000.host123:2,S").unwrap();
    assert_eq!(parts.timestamp, "1700000000");
    assert_eq!(parts.uniquifier, "host123");
    assert_eq!(parts.flags, "S");
}

#[test]
fn parse_filename_without_suffix() {
    let parts = parse_filename("1700000000.host123").unwrap();
    assert_eq!(parts.timestamp, "1700000000");
    assert_eq!(parts.uniquifier, "host123");
    assert_eq!(parts.flags, "");
}

#[test]
fn parse_filename_with_multiple_dots() {
    let parts = parse_filename("1700000000.host.pid123:2,RS").unwrap();
    assert_eq!(parts.timestamp, "1700000000");
    assert_eq!(parts.uniquifier, "host.pid123");
    assert_eq!(parts.flags, "RS");
}

#[test]
fn parse_filename_empty_timestamp() {
    assert!(parse_filename(".host:2,S").is_none());
}

#[test]
fn parse_filename_empty_uniquifier() {
    assert!(parse_filename("1700000000.:2,S").is_none());
}

#[test]
fn parse_filename_no_dot() {
    assert!(parse_filename("no_dot").is_none());
}

#[test]
fn parse_filename_empty() {
    assert!(parse_filename("").is_none());
}

#[test]
fn generate_filename_roundtrip() {
    let parts = FilenameParts {
        timestamp: "1700000000".to_string(),
        uniquifier: "host123".to_string(),
        flags: "S".to_string(),
    };
    let filename = generate_filename(&parts);
    assert_eq!(filename, "1700000000.host123:2,S");
    let parsed = parse_filename(&filename).unwrap();
    assert_eq!(parsed, parts);
}

#[test]
fn generate_filename_no_flags() {
    let parts = FilenameParts {
        timestamp: "1700000000".to_string(),
        uniquifier: "host123".to_string(),
        flags: String::new(),
    };
    let filename = generate_filename(&parts);
    assert_eq!(filename, "1700000000.host123:2,");
}

#[test]
fn generate_filename_unsorted_flags() {
    let parts = FilenameParts {
        timestamp: "1700000000".to_string(),
        uniquifier: "host123".to_string(),
        flags: "SR".to_string(),
    };
    let filename = generate_filename(&parts);
    assert_eq!(filename, "1700000000.host123:2,RS");
}

#[test]
fn keyword_to_flag_mapping() {
    assert_eq!(keyword_to_flag("$seen"), Some('S'));
    assert_eq!(keyword_to_flag("$flagged"), Some('F'));
    assert_eq!(keyword_to_flag("$draft"), Some('D'));
    assert_eq!(keyword_to_flag("$answered"), Some('R'));
    assert_eq!(keyword_to_flag("$trashed"), Some('T'));
    assert_eq!(keyword_to_flag("$forwarded"), Some('P'));
    assert_eq!(keyword_to_flag("$unknown"), None);
}

#[test]
fn flag_to_keyword_mapping() {
    assert_eq!(flag_to_keyword('S'), Some("$seen"));
    assert_eq!(flag_to_keyword('F'), Some("$flagged"));
    assert_eq!(flag_to_keyword('D'), Some("$draft"));
    assert_eq!(flag_to_keyword('R'), Some("$answered"));
    assert_eq!(flag_to_keyword('T'), Some("$trashed"));
    assert_eq!(flag_to_keyword('P'), Some("$forwarded"));
    assert_eq!(flag_to_keyword('X'), None);
}

#[test]
fn keywords_to_flags_empty() {
    let set = BTreeSet::new();
    assert_eq!(keywords_to_flags(&set), "");
}

#[test]
fn keywords_to_flags_single() {
    let mut set = BTreeSet::new();
    set.insert("$seen".to_string());
    assert_eq!(keywords_to_flags(&set), "S");
}

#[test]
fn keywords_to_flags_multiple() {
    let mut set = BTreeSet::new();
    set.insert("$seen".to_string());
    set.insert("$flagged".to_string());
    set.insert("$draft".to_string());
    assert_eq!(keywords_to_flags(&set), "DFS");
}

#[test]
fn keywords_to_flags_unknown_ignored() {
    let mut set = BTreeSet::new();
    set.insert("$seen".to_string());
    set.insert("$custom".to_string());
    assert_eq!(keywords_to_flags(&set), "S");
}

#[test]
fn flags_to_keywords_empty() {
    assert!(flags_to_keywords("").is_empty());
}

#[test]
fn flags_to_keywords_single() {
    assert_eq!(flags_to_keywords("S"), vec!["$seen"]);
}

#[test]
fn flags_to_keywords_multiple() {
    let result = flags_to_keywords("DF");
    assert_eq!(result, vec!["$draft", "$flagged"]);
}

#[test]
fn flags_to_keywords_unknown_ignored() {
    let result = flags_to_keywords("SX");
    assert_eq!(result, vec!["$seen"]);
}

#[test]
fn keyword_flag_roundtrip() {
    let keywords = ["$seen", "$flagged", "$draft", "$answered", "$trashed", "$forwarded"];
    for kw in &keywords {
        let flag = keyword_to_flag(kw).unwrap();
        let kw_back = flag_to_keyword(flag).unwrap();
        assert_eq!(kw_back, *kw);
    }
}

#[test]
fn normalize_flags_sorts() {
    assert_eq!(normalize_flags("TSRFPD").unwrap(), "DFPRST");
}

#[test]
fn normalize_flags_rejects_invalid() {
    assert!(normalize_flags("SX").is_err());
}

#[test]
fn normalize_flags_rejects_lowercase() {
    assert!(normalize_flags("s").is_err());
}

#[test]
fn normalize_flags_lossy_ignores_invalid() {
    assert_eq!(normalize_flags_lossy("SX"), "S");
    assert_eq!(normalize_flags_lossy("s"), "");
}

// ---------------------------------------------------------------------------
// Further cases
// ---------------------------------------------------------------------------

#[test]
fn invalid_flag_reports_first_position() {
    assert_eq!(
        normalize_flags("SXY"),
        Err(FlagError::InvalidFlag { flag: 'X', position: 1 })
    );
    // The position counts characters, not bytes.
    assert_eq!(
        normalize_flags("ÄS"),
        Err(FlagError::InvalidFlag { flag: 'Ä', position: 0 })
    );
}

#[test]
fn parse_flags_position_is_after_the_marker() {
    assert_eq!(
        parse_flags(":2,RZ"),
        Err(FlagError::InvalidFlag { flag: 'Z', position: 1 })
    );
}

#[test]
fn parse_flags_only_strips_a_leading_marker() {
    assert!(parse_flags("S:2,").is_err());
    assert_eq!(parse_flags(":2,:2,"), Err(FlagError::InvalidFlag { flag: ':', position: 0 }));
}

#[test]
fn normalize_is_idempotent_on_examples() {
    for raw in ["", "TSRFPD", "SSX", "xyz", "DFPRST", "RRRR"] {
        let once = normalize_flags_lossy(raw);
        let twice = normalize_flags_lossy(&once);
        assert_eq!(once, twice);
        assert_eq!(normalize_flags(&once).unwrap(), once);
    }
}

#[test]
fn strict_agrees_with_lossy_on_valid_input() {
    for raw in ["", "SR", "TTT", "DFPRST", "PD"] {
        assert_eq!(normalize_flags(raw).unwrap(), normalize_flags_lossy(raw));
    }
}

#[test]
fn suffix_parses_back() {
    for flags in ["", "SRX", "TD", "ss", "DFPRST"] {
        let suffix = flags_to_suffix(flags);
        assert_eq!(parse_flags(&suffix).unwrap(), normalize_flags_lossy(flags));
    }
}

#[test]
fn parse_filename_uses_first_marker() {
    let parts = parse_filename("17.host:2,S:2,T").unwrap();
    assert_eq!(parts.timestamp, "17");
    assert_eq!(parts.uniquifier, "host");
    // everything after the first marker is read as flags; ':' and ',' are dropped
    assert_eq!(parts.flags, "ST");
}

#[test]
fn parse_filename_ignores_invalid_flag_characters() {
    let parts = parse_filename("1.a:2,xSyR").unwrap();
    assert_eq!(parts.flags, "RS");
}

#[test]
fn parse_filename_dot_after_marker_does_not_count() {
    assert!(parse_filename("1700000000:2,S.x").is_none());
}

#[test]
fn generate_then_parse_normalizes_flags() {
    let parts = FilenameParts {
        timestamp: "1".to_string(),
        uniquifier: "h.x:2".to_string(),
        flags: "TXDD".to_string(),
    };
    let name = generate_filename(&parts);
    assert_eq!(name, "1.h.x:2:2,DT");
    let back = parse_filename(&name).unwrap();
    assert_eq!(back.timestamp, "1");
    assert_eq!(back.uniquifier, "h.x:2");
    assert_eq!(back.flags, "DT");
}

#[test]
fn parse_then_generate_is_stable() {
    for name in ["1.a", "1.a:2,SR", "12.host.x:2,Tz", "9.q:2,"] {
        let parts = parse_filename(name).unwrap();
        let again = parse_filename(&generate_filename(&parts)).unwrap();
        assert_eq!(again, parts);
    }
}

#[test]
fn keywords_roundtrip_gives_normalized_flags() {
    for flags in ["", "SR", "TTDX", "DFPRST"] {
        let set: BTreeSet<String> = flags_to_keywords(flags).into_iter().collect();
        assert_eq!(keywords_to_flags(&set), normalize_flags_lossy(flags));
    }
}

#[test]
fn flags_to_keywords_keeps_order_and_repeats() {
    assert_eq!(flags_to_keywords("SDS"), vec!["$seen", "$draft", "$seen"]);
}

#[test]
fn keyword_matching_is_exact() {
    assert_eq!(keyword_to_flag("$Seen"), None);
    assert_eq!(keyword_to_flag("$see"), None);
    assert_eq!(keyword_to_flag("$seen "), None);
    assert_eq!(keyword_to_flag(""), None);
}
